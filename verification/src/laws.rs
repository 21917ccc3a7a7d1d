//! The laws the library keeps, stated and proved over the same spec
//! functions its contracts use: parsing inverts rendering, rendering is
//! deterministic, the lenient conversion resolves failures to the
//! fallback and nothing else, the first matching variant wins, and a
//! committed parameter or subtree failure never falls through.

use vstd::prelude::*;
use crate::parse::{
    arity_ok, fatal_param, frag_at, parse_by_ty, parse_from, remaining_input, seg_binding, slot_of,
    slots_of,
    spec_parse_route, url_frags, url_query, variant_matches, variant_segs, ErrView,
};
use crate::value::RouteValView;
use crate::model::RouteTable;
use crate::routes::{
    spec_admin_from, spec_admin_path, spec_test_from, spec_test_path, tail_input, AdminRoutes,
    TestRoutesView,
};
use crate::strutil::{
    dec_digits, first_idx, frag_clean, frags_clean, insert_sorted, join_slash, lex_le,
    lemma_dec_digits_are_digits, lemma_first_idx_unique, lemma_parse_of_dec_digits,
    lemma_path_frags_of_join, lookup_pairs, nonempty_frags, pair_of, pairs_of, path_frags,
    query_pairs, sort_by_key, spec_parse_u64, split_frags,
};
use crate::builder::{
    build_frags, build_query, render_pairs, render_query, slot_at, spec_build_path,
    spec_build_variant_path,
};
use crate::model::RouteKind;
use crate::segment::{seg_of_frag, segs_of_frags, spec_parse_segments, trim_colons, SegView};
use crate::validate::{field_idx, lemma_field_idx_unique, used_in_path};
use crate::value::FieldValV;

verus! {

/// A string without the separator splits into itself alone.
proof fn lemma_split_clean_single(s: Seq<char>, sep: char)
    requires
        frag_clean(s, sep),
    ensures
        split_frags(s, sep) =~~= seq![s],
    decreases s.len(),
{
    if s.len() == 0 {
        assert(split_frags(s, sep) =~= seq![Seq::<char>::empty()]);
        assert(Seq::<char>::empty() =~= s);
    } else {
        assert(s[0] != sep);
        assert(forall|j: int| 0 <= j < s.drop_first().len() ==> s.drop_first()[j] == s[j + 1]);
        lemma_split_clean_single(s.drop_first(), sep);
        assert(seq![s[0]] + s.drop_first() =~= s);
    }
}

/// A URL without `?` is all path: its fragments are the path's and its
/// query is empty.
proof fn lemma_url_no_query(s: Seq<char>)
    requires
        frag_clean(s, '?'),
    ensures
        url_frags(s) == path_frags(s),
        url_query(s) =~~= Seq::<(Seq<char>, Seq<char>)>::empty(),
{
    lemma_first_idx_unique(s, '?', s.len() as int);
    assert(s.take(s.len() as int) =~= s);
    assert(split_frags(Seq::<char>::empty(), '&') =~= seq![Seq::<char>::empty()]);
    assert(first_idx(Seq::<char>::empty(), '=') == 0);
    assert(pair_of(Seq::<char>::empty()) is None);
    assert(seq![Seq::<char>::empty()].drop_last() =~= Seq::<Seq<char>>::empty());
    assert(pairs_of(Seq::<Seq<char>>::empty()) =~= Seq::<(Seq<char>, Seq<char>)>::empty());
    assert(seq![Seq::<char>::empty()].last() == Seq::<char>::empty());
    assert(pairs_of(seq![Seq::<char>::empty()]) =~= Seq::<(Seq<char>, Seq<char>)>::empty());
    assert(query_pairs(Seq::<char>::empty()) =~~= Seq::<(Seq<char>, Seq<char>)>::empty());
}

/// The canonical rendering `/f1/f2/...` of clean fragments has no `?`.
proof fn lemma_join_clean(fr: Seq<Seq<char>>, c: char)
    requires
        c != '/',
        forall|k: int| 0 <= k < fr.len() ==> frag_clean(#[trigger] fr[k], c),
    ensures
        frag_clean(join_slash(fr), c),
    decreases fr.len(),
{
    if fr.len() > 0 {
        assert(forall|k: int|
            0 <= k < fr.drop_first().len() ==> frag_clean(#[trigger] fr.drop_first()[k], c));
        lemma_join_clean(fr.drop_first(), c);
        let whole = seq!['/'] + fr.first() + join_slash(fr.drop_first());
        assert(join_slash(fr) == whole);
        assert forall|j: int| 0 <= j < whole.len() implies whole[j] != c by {
            if j == 0 {
            } else if j < 1 + fr.first().len() {
                assert(whole[j] == fr.first()[j - 1]);
                assert(frag_clean(fr[0], c));
            } else {
                assert(whole[j] == join_slash(fr.drop_first())[j - 1 - fr.first().len()]);
            }
        }
    }
}

/// Decimal digits are ordinary path text: none of them is a separator.
proof fn lemma_digits_clean(n: u64)
    ensures
        frag_clean(dec_digits(n as nat), '/'),
        frag_clean(dec_digits(n as nat), '?'),
        frag_clean(dec_digits(n as nat), '&'),
        frag_clean(dec_digits(n as nat), '='),
        dec_digits(n as nat).len() > 0,
{
    lemma_dec_digits_are_digits(n as nat);
}

/// Rendering is deterministic: the canonical URL of a route value is a
/// function of the value alone, so the same value always renders to the
/// same string, byte for byte, query keys sorted.
pub proof fn lemma_to_path_deterministic(a: TestRoutesView, b: TestRoutesView)
    requires
        a == b,
    ensures
        spec_test_path(a) == spec_test_path(b),
{
}

/// Fallback idempotence: the lenient conversion returns exactly the
/// designated fallback value on any string no variant matches, and the
/// matched variant's own value — never the fallback — on any string one
/// does.
pub proof fn lemma_lenient_resolution(input: Seq<char>)
    ensures
        spec_test_from(input) is Err ==> (match spec_test_from(input) {
            Ok(v) => v,
            Err(_) => TestRoutesView::NotFound,
        }) == TestRoutesView::NotFound,
        forall|v: TestRoutesView|
            spec_test_from(input) == Ok::<TestRoutesView, ErrView>(v) ==> (match spec_test_from(
                input,
            ) {
                Ok(w) => w,
                Err(_) => TestRoutesView::NotFound,
            }) == v,
{
}

proof fn lemma_parse_skip(
    t: RouteTable,
    input: Seq<char>,
    ps: Seq<Seq<char>>,
    qs: Seq<(Seq<char>, Seq<char>)>,
    i: int,
)
    requires
        0 <= i <= t.variants@.len(),
        forall|j: int| 0 <= j < i ==> !variant_matches(#[trigger] t.variants@[j], ps),
    ensures
        parse_from(t, input, ps, qs, 0) == parse_from(t, input, ps, qs, i),
    decreases i,
{
    if i > 0 {
        lemma_parse_skip(t, input, ps, qs, i - 1);
        assert(!variant_matches(t.variants@[i - 1], ps));
    }
}

/// First match wins: when every variant declared before `i` fails the
/// arity or static checks and variant `i` passes them, the parse commits
/// to variant `i` — later variants cannot influence the result, which is
/// variant `i`'s own success or its own fatal failure.
pub proof fn lemma_first_match_wins(t: RouteTable, input: Seq<char>, i: int)
    requires
        0 <= i < t.variants@.len(),
        forall|j: int|
            0 <= j < i ==> !variant_matches(#[trigger] t.variants@[j], url_frags(input)),
        variant_matches(t.variants@[i], url_frags(input)),
    ensures
        spec_parse_route(t, input) == ({
            let vs = t.variants@[i];
            let segs = variant_segs(vs);
            let ps = url_frags(input);
            let qs = url_query(input);
            if vs.kind.is_nesting() {
                match spec_parse_route(vs.kind.nested_table(), remaining_input(segs, ps)) {
                    Ok(nv) => Ok::<RouteValView, ErrView>(
                        RouteValView {
                            variant: i,
                            slots: slots_of(vs.fields@, segs, ps, qs),
                            nested: Some(Box::new(nv)),
                        },
                    ),
                    Err(_) => Err::<RouteValView, ErrView>(ErrView::Nested { input }),
                }
            } else {
                match fatal_param(segs, vs.fields@, ps, 0) {
                    Some(n) => Err::<RouteValView, ErrView>(ErrView::ParamParse { param: n }),
                    None => Ok::<RouteValView, ErrView>(
                        RouteValView {
                            variant: i,
                            slots: slots_of(vs.fields@, segs, ps, qs),
                            nested: None,
                        },
                    ),
                }
            }
        }),
{
    lemma_parse_skip(t, input, url_frags(input), url_query(input), i);
}

/// Fatal versus fallthrough: an input whose two fragments lead with
/// `user` commits to the user route, so an `id` fragment that is no
/// decimal `u64` fails the whole parse — it does not fall through to any
/// later variant.
pub proof fn lemma_param_failure_fatal(input: Seq<char>)
    requires
        url_frags(input).len() == 2,
        url_frags(input)[0] == "user"@,
        spec_parse_u64(url_frags(input)[1]) is None,
    ensures
        spec_test_from(input) == Err::<TestRoutesView, ErrView>(
            ErrView::ParamParse { param: "id"@ },
        ),
{
}

/// Nested commit: an input whose first fragment is `admin` commits to
/// the admin subtree; when the nested parser rejects the remaining
/// suffix, the whole parse fails — only the lenient conversion then
/// resolves it, to the outer fallback.
pub proof fn lemma_nested_commit(input: Seq<char>)
    requires
        url_frags(input).len() >= 1,
        url_frags(input)[0] == "admin"@,
        spec_admin_from(tail_input(url_frags(input))) is Err,
    ensures
        spec_test_from(input) == Err::<TestRoutesView, ErrView>(ErrView::Nested { input }),
        (match spec_test_from(input) {
            Ok(v) => v,
            Err(_) => TestRoutesView::NotFound,
        }) == TestRoutesView::NotFound,
{
    reveal_strlit("admin");
    reveal_strlit("about");
    reveal_strlit("user");
    reveal_strlit("post");
    assert("admin"@[1] == 'd');
    assert("about"@[1] == 'b');
    assert("admin"@ != "about"@);
    assert("admin"@.len() != "user"@.len());
    assert("admin"@.len() != "post"@.len());
}

/// A URL of one fragment: a leading slash and clean text.
proof fn lemma_url_one(w: Seq<char>)
    requires
        w.len() > 0,
        frag_clean(w, '/'),
        frag_clean(w, '?'),
    ensures
        url_frags(seq!['/'] + w) =~~= seq![w],
        url_query(seq!['/'] + w) =~~= Seq::<(Seq<char>, Seq<char>)>::empty(),
{
    let s = seq!['/'] + w;
    assert forall|j: int| 0 <= j < s.len() implies s[j] != '?' by {
        if j > 0 {
            assert(s[j] == w[j - 1]);
        }
    }
    lemma_url_no_query(s);
    assert(seq![w].first() == w);
    assert(seq![w].drop_first() =~= Seq::<Seq<char>>::empty());
    assert(join_slash(Seq::<Seq<char>>::empty()) =~= Seq::<char>::empty());
    assert(join_slash(seq![w]) =~= s);
    assert(frags_clean(seq![w], '/'));
    lemma_path_frags_of_join(seq![w]);
}

/// A URL of two fragments.
proof fn lemma_url_two(a: Seq<char>, b: Seq<char>)
    requires
        a.len() > 0,
        b.len() > 0,
        frag_clean(a, '/'),
        frag_clean(a, '?'),
        frag_clean(b, '/'),
        frag_clean(b, '?'),
    ensures
        url_frags(seq!['/'] + a + seq!['/'] + b) =~~= seq![a, b],
        path_frags(seq!['/'] + a + seq!['/'] + b) =~~= seq![a, b],
        url_query(seq!['/'] + a + seq!['/'] + b) =~~= Seq::<(Seq<char>, Seq<char>)>::empty(),
{
    let s = seq!['/'] + a + seq!['/'] + b;
    assert forall|j: int| 0 <= j < s.len() implies s[j] != '?' by {
        if 0 < j < 1 + a.len() {
            assert(s[j] == a[j - 1]);
        } else if j > 1 + a.len() {
            assert(s[j] == b[j - 2 - a.len()]);
        }
    }
    lemma_url_no_query(s);
    assert(seq![a, b].first() == a);
    assert(seq![a, b].drop_first() =~= seq![b]);
    assert(seq![b].drop_first() =~= Seq::<Seq<char>>::empty());
    assert(join_slash(Seq::<Seq<char>>::empty()) =~= Seq::<char>::empty());
    assert(join_slash(seq![b]) =~= seq!['/'] + b);
    assert(join_slash(seq![a, b]) =~= s);
    assert(frags_clean(seq![a, b], '/'));
    lemma_path_frags_of_join(seq![a, b]);
}

/// Splitting a URL at its first `?`, which the path part does not hold.
proof fn lemma_url_with_query(base: Seq<char>, q: Seq<char>)
    requires
        frag_clean(base, '?'),
    ensures
        url_frags(base + seq!['?'] + q) == path_frags(base),
        url_query(base + seq!['?'] + q) == query_pairs(q),
{
    let s = base + seq!['?'] + q;
    assert(s[base.len() as int] == '?');
    assert(forall|j: int| 0 <= j < base.len() ==> s[j] == base[j]);
    lemma_first_idx_unique(s, '?', base.len() as int);
    assert(s.take(base.len() as int) =~= base);
    assert(s.skip(base.len() as int + 1) =~= q);
}

/// A query string of exactly one `comment` pair.
proof fn lemma_query_single_pair(c: Seq<char>)
    requires
        frag_clean(c, '&'),
    ensures
        query_pairs("comment="@ + c) =~~= seq![("comment"@, c)],
        lookup_pairs(query_pairs("comment="@ + c), "comment"@) == Some(c),
{
    reveal_strlit("comment=");
    reveal_strlit("comment");
    let f = "comment="@ + c;
    assert forall|j: int| 0 <= j < f.len() implies f[j] != '&' by {
        if j < 8 {
            assert(f[j] == "comment="@[j]);
        } else {
            assert(f[j] == c[j - 8]);
        }
    }
    lemma_split_clean_single(f, '&');
    assert forall|j: int| 0 <= j < 7 implies f[j] != '=' by {
        assert(f[j] == "comment="@[j]);
    }
    assert(f[7] == '=');
    lemma_first_idx_unique(f, '=', 7);
    assert(pair_of(f) == Some(("comment"@, c))) by {
        assert(f.take(7) =~= "comment"@);
        assert(f.skip(8) =~= c);
    }
    assert(seq![f].drop_last() =~= Seq::<Seq<char>>::empty());
    assert(pairs_of(Seq::<Seq<char>>::empty()) =~= Seq::<(Seq<char>, Seq<char>)>::empty());
    assert(seq![f].last() == f);
    assert(pairs_of(seq![f]) =~~= seq![("comment"@, c)]);
    assert(query_pairs(f) =~~= seq![("comment"@, c)]);
    assert(seq![("comment"@, c)].last() == ("comment"@, c));
}

/// Whether a route value survives the round trip intact: everything
/// does, except a comment holding the pair separator `&`, which would be
/// read back as two query pairs.
pub open spec fn test_value_valid(v: TestRoutesView) -> bool {
    match v {
        TestRoutesView::Post { comment, .. } => match comment {
            Some(c) => frag_clean(c, '&'),
            None => true,
        },
        _ => true,
    }
}

/// Round-trip: parsing the canonical URL of any valid route value gives
/// back exactly that value — for every variant, arbitrary field values,
/// and recursively for the nested admin values.
#[verifier::rlimit(30)]
pub proof fn lemma_round_trip(v: TestRoutesView)
    requires
        test_value_valid(v),
    ensures
        spec_test_from(spec_test_path(v)) == Ok::<TestRoutesView, ErrView>(v),
{
    reveal_strlit("/");
    reveal_strlit("about");
    reveal_strlit("/about");
    reveal_strlit("user");
    reveal_strlit("/user/");
    reveal_strlit("post");
    reveal_strlit("/post/");
    reveal_strlit("admin");
    reveal_strlit("/admin");
    reveal_strlit("users");
    reveal_strlit("/users");
    reveal_strlit("settings");
    reveal_strlit("/settings");
    reveal_strlit("404");
    reveal_strlit("/404");
    reveal_strlit("comment");
    reveal_strlit("comment=");
    reveal_strlit("?comment=");
    match v {
        TestRoutesView::Home => {
            let s = "/"@;
            assert(s[0] == '/');
            assert(frag_clean(s, '?'));
            lemma_url_no_query(s);
            assert(s.drop_first() =~= Seq::<char>::empty());
            assert(split_frags(Seq::<char>::empty(), '/') =~= seq![Seq::<char>::empty()]);
            assert(split_frags(s, '/') =~= seq![Seq::<char>::empty(), Seq::<char>::empty()]);
            assert(nonempty_frags(Seq::<Seq<char>>::empty()) =~= Seq::<Seq<char>>::empty());
            let two = seq![Seq::<char>::empty(), Seq::<char>::empty()];
            assert(seq![Seq::<char>::empty()].drop_last() =~= Seq::<Seq<char>>::empty());
            assert(seq![Seq::<char>::empty()].last().len() == 0);
            assert(nonempty_frags(seq![Seq::<char>::empty()]) =~= Seq::<Seq<char>>::empty());
            assert(two.drop_last() =~= seq![Seq::<char>::empty()]);
            assert(two.last().len() == 0);
            assert(nonempty_frags(two) =~= Seq::<Seq<char>>::empty());
            assert(path_frags(s) =~~= Seq::<Seq<char>>::empty());
            assert(url_frags(s).len() == 0);
            assert(v == TestRoutesView::Home);
            assert(spec_test_path(v) == s);
            assert(spec_test_from(s) == Ok::<TestRoutesView, ErrView>(TestRoutesView::Home));
            assert(spec_test_from(spec_test_path(v)) == Ok::<TestRoutesView, ErrView>(v));
        },
        TestRoutesView::About => {
            assert(spec_test_path(v) =~= seq!['/'] + "about"@);
            lemma_url_one("about"@);
            assert(spec_test_from(spec_test_path(v)) == Ok::<TestRoutesView, ErrView>(v));
        },
        TestRoutesView::User { id } => {
            lemma_digits_clean(id);
            lemma_parse_of_dec_digits(id);
            let d = dec_digits(id as nat);
            assert(spec_test_path(v) =~= seq!['/'] + "user"@ + seq!['/'] + d);
            lemma_url_two("user"@, d);
            assert(spec_test_from(spec_test_path(v)) == Ok::<TestRoutesView, ErrView>(v));
        },
        TestRoutesView::Post { id, comment } => {
            lemma_digits_clean(id);
            lemma_parse_of_dec_digits(id);
            let d = dec_digits(id as nat);
            let base = "/post/"@ + d;
            assert(base =~= seq!['/'] + "post"@ + seq!['/'] + d);
            lemma_url_two("post"@, d);
            assert("post"@[0] != "user"@[0]);
            match comment {
                None => {
                    assert(spec_test_path(v) =~= seq!['/'] + "post"@ + seq!['/'] + d);
                    assert(spec_test_from(spec_test_path(v)) == Ok::<TestRoutesView, ErrView>(v));
                },
                Some(c) => {
                    assert(spec_test_path(v) =~= base + seq!['?'] + ("comment="@ + c));
                    assert forall|j: int| 0 <= j < base.len() implies base[j] != '?' by {
                        let two = seq!['/'] + "post"@ + seq!['/'] + d;
                        assert(base[j] == two[j]);
                        if 0 < j < 5 {
                            assert(two[j] == "post"@[j - 1]);
                        } else if j > 5 {
                            assert(two[j] == d[j - 6]);
                        }
                    }
                    lemma_url_with_query(base, "comment="@ + c);
                    lemma_query_single_pair(c);
                    assert(path_frags(base) =~~= seq!["post"@, d]);
                    assert(url_frags(spec_test_path(v)) =~~= seq!["post"@, d]);
                    assert(spec_test_from(spec_test_path(v)) == Ok::<TestRoutesView, ErrView>(v));
                },
            }
        },
        TestRoutesView::Admin(a) => {
            let w = spec_admin_path(a).drop_first();
            assert(spec_admin_path(a) =~= seq!['/'] + w) by {
                match a {
                    AdminRoutes::AdminUsers => {
                        assert("/users"@[0] == '/');
                    },
                    AdminRoutes::AdminSettings => {
                        assert("/settings"@[0] == '/');
                    },
                    AdminRoutes::AdminNotFound => {
                        assert("/404"@[0] == '/');
                    },
                }
            }
            match a {
                AdminRoutes::AdminUsers => {
                    assert(w =~= "users"@);
                },
                AdminRoutes::AdminSettings => {
                    assert(w =~= "settings"@);
                },
                AdminRoutes::AdminNotFound => {
                    assert(w =~= "404"@);
                },
            }
            assert(frag_clean(w, '/') && frag_clean(w, '?') && w.len() > 0);
            assert(spec_test_path(v) =~= seq!['/'] + "admin"@ + seq!['/'] + w);
            lemma_url_two("admin"@, w);
            let ps = url_frags(spec_test_path(v));
            assert(ps =~~= seq!["admin"@, w]);
            assert("admin"@.len() != "user"@.len());
            assert("admin"@.len() != "post"@.len());
            assert(tail_input(ps) =~= seq!['/'] + w) by {
                assert(ps.skip(1) =~= seq![w]);
                assert(seq![w].drop_first() =~= Seq::<Seq<char>>::empty());
                assert(join_slash(Seq::<Seq<char>>::empty()) =~= Seq::<char>::empty());
                assert(join_slash(seq![w]) =~= seq!['/'] + w);
            }
            lemma_url_one(w);
            assert("settings"@.len() != "users"@.len());
            assert("404"@.len() != "users"@.len());
            assert("404"@.len() != "settings"@.len());
            assert(spec_admin_from(tail_input(ps)) == Ok::<AdminRoutes, ErrView>(a));
            assert(spec_test_from(spec_test_path(v)) == Ok::<TestRoutesView, ErrView>(v));
        },
        TestRoutesView::NotFound => {
            assert(spec_test_path(v) =~= seq!['/'] + "404"@);
            lemma_url_one("404"@);
            assert("404"@.len() != "about"@.len());
            assert("404"@.len() != "admin"@.len());
            assert(spec_test_from(spec_test_path(v)) == Ok::<TestRoutesView, ErrView>(v));
        },
    }
}

/// Optional-parameter omission: a value whose optional path parameter is
/// absent renders with the segment skipped entirely — no trailing slash
/// and no placeholder stands in for it.
pub proof fn lemma_optional_omitted(t: RouteTable, v: RouteValView)
    requires
        0 <= v.variant < t.variants@.len(),
        t.variants@[v.variant].kind matches RouteKind::Leaf { path } && path@ == "/asset/:id?"@,
        t.variants@[v.variant].fields@.len() == 1,
        t.variants@[v.variant].fields@[0].name@ == "id"@,
        v.slots =~= seq![None::<FieldValV>],
    ensures
        spec_build_path(t, v) == "/asset"@,
{
    reveal_strlit("/asset/:id?");
    reveal_strlit("asset");
    reveal_strlit(":id?");
    reveal_strlit(":id");
    reveal_strlit("id");
    reveal_strlit("/asset");
    let vs = t.variants@[v.variant];
    let p = vs.kind->Leaf_path;
    let frags = seq!["asset"@, ":id?"@];
    assert(frags_clean(frags, '/')) by {
        assert(frag_clean("asset"@, '/'));
        assert(frag_clean(":id?"@, '/'));
        assert(forall|k: int| 0 <= k < 2 ==> frags[k] == (if k == 0 { "asset"@ } else { ":id?"@ }));
    }
    assert(join_slash(frags) =~= p@) by {
        assert(frags.drop_first() =~= seq![":id?"@]);
        assert(seq![":id?"@].drop_first() =~= Seq::<Seq<char>>::empty());
        assert(join_slash(Seq::<Seq<char>>::empty()) =~= Seq::<char>::empty());
        assert(join_slash(seq![":id?"@]) =~= seq!['/'] + ":id?"@);
    }
    crate::strutil::lemma_split_of_join(frags);
    let sf = split_frags(p@, '/');
    assert(sf =~~= seq![Seq::<char>::empty(), "asset"@, ":id?"@]);
    let segs = spec_parse_segments(p@);
    assert(trim_colons(":id"@) =~= "id"@) by {
        assert(":id"@[0] == ':');
        assert(":id"@.drop_first() =~= "id"@);
        assert("id"@[0] == 'i');
        assert(trim_colons("id"@) == "id"@);
    }
    assert(seg_of_frag(":id?"@) == Some(SegView::OptionalParam("id"@))) by {
        assert(":id?"@[0] == ':');
        assert(":id?"@.last() == '?');
        assert(":id?"@.drop_last() =~= ":id"@);
    }
    assert(seg_of_frag("asset"@) == Some(SegView::Static("asset"@))) by {
        assert("asset"@[0] == 'a');
    }
    assert(seg_of_frag(Seq::<char>::empty()) is None);
    assert(segs =~~= seq![SegView::Static("asset"@), SegView::OptionalParam("id"@)]) by {
        assert(sf.drop_last() =~= seq![Seq::<char>::empty(), "asset"@]);
        assert(seq![Seq::<char>::empty(), "asset"@].drop_last() =~= seq![Seq::<char>::empty()]);
        assert(seq![Seq::<char>::empty()].drop_last() =~= Seq::<Seq<char>>::empty());
        assert(segs_of_frags(Seq::<Seq<char>>::empty()) =~= Seq::<SegView>::empty());
        assert(seq![Seq::<char>::empty()].last() == Seq::<char>::empty());
        assert(segs_of_frags(seq![Seq::<char>::empty()]) =~= Seq::<SegView>::empty());
        assert(seq![Seq::<char>::empty(), "asset"@].last() == "asset"@);
        assert(segs_of_frags(seq![Seq::<char>::empty(), "asset"@]) =~~= seq![
            SegView::Static("asset"@),
        ]);
        assert(sf.last() == ":id?"@);
        assert(segs_of_frags(sf) =~~= segs_of_frags(seq![Seq::<char>::empty(), "asset"@]).push(
            SegView::OptionalParam("id"@),
        ));
    }
    assert(field_idx(vs.fields@, "id"@) == 0) by {
        lemma_field_idx_unique(vs.fields@, "id"@, 0);
    }
    let bf = build_frags(segs, vs.fields@, v.slots, 0);
    assert(bf =~~= seq!["asset"@]) by {
        assert(segs[0] == SegView::Static("asset"@));
        assert(segs[1] == SegView::OptionalParam("id"@));
        assert(slot_at(v.slots, 0) is None);
        assert(build_frags(segs, vs.fields@, v.slots, 2) =~= Seq::<Seq<char>>::empty());
        assert(build_frags(segs, vs.fields@, v.slots, 1) =~= Seq::<Seq<char>>::empty());
    }
    assert(join_slash(bf) =~= seq!['/'] + "asset"@) by {
        assert(bf.drop_first() =~= Seq::<Seq<char>>::empty());
        assert(join_slash(Seq::<Seq<char>>::empty()) =~= Seq::<char>::empty());
    }
    assert(used_in_path(segs, "id"@)) by {
        assert(segs[1].binds("id"@));
    }
    let bq = build_query(vs.fields@, v.slots, segs, 0);
    assert(bq =~~= Seq::<(Seq<char>, Seq<char>)>::empty()) by {
        assert(build_query(vs.fields@, v.slots, segs, 1) =~= Seq::<(Seq<char>, Seq<char>)>::empty());
    }
    assert(sort_by_key(bq) =~~= Seq::<(Seq<char>, Seq<char>)>::empty());
    assert(spec_build_variant_path(vs, v.slots) =~= seq!['/'] + "asset"@);
    assert(spec_build_path(t, v) =~= seq!['/'] + "asset"@);
    assert("/asset"@ =~= seq!['/'] + "asset"@);
}

/// Query ordering: pairs are rendered sorted lexicographically by key,
/// not in the order they were set, whatever the values hold.
pub proof fn lemma_query_sorted(v1: Seq<char>, v2: Seq<char>)
    ensures
        render_query(sort_by_key(seq![("b"@, v2), ("a"@, v1)])) == seq!['?'] + "a"@ + seq!['=']
            + v1 + seq!['&'] + "b"@ + seq!['='] + v2,
{
    reveal_strlit("a");
    reveal_strlit("b");
    let pb = ("b"@, v2);
    let pa = ("a"@, v1);
    let two = seq![pb, pa];
    assert(lex_le("a"@, "b"@)) by {
        assert("a"@[0] == 'a');
        assert("b"@[0] == 'b');
        assert(("a"@.first() as u32) < ("b"@.first() as u32));
    }
    assert(!lex_le("b"@, "a"@)) by {
        assert(("b"@.first() as u32) > ("a"@.first() as u32));
    }
    let sorted = sort_by_key(two);
    assert(sorted =~~= seq![pa, pb]) by {
        assert(two.drop_last() =~= seq![pb]);
        assert(two.last() == pa);
        assert(seq![pb].drop_last() =~= Seq::<(Seq<char>, Seq<char>)>::empty());
        assert(seq![pb].last() == pb);
        assert(sort_by_key(Seq::<(Seq<char>, Seq<char>)>::empty())
            =~= Seq::<(Seq<char>, Seq<char>)>::empty());
        assert(sort_by_key(seq![pb]) =~~= insert_sorted(pb, Seq::<(Seq<char>, Seq<char>)>::empty()));
        assert(insert_sorted(pb, Seq::<(Seq<char>, Seq<char>)>::empty()) =~~= seq![pb]);
        assert(sort_by_key(seq![pb]) =~~= seq![pb]);
        assert(insert_sorted(pa, seq![pb]) =~~= insert_sorted(
            pa,
            Seq::<(Seq<char>, Seq<char>)>::empty(),
        ).push(pb));
        assert(insert_sorted(pa, Seq::<(Seq<char>, Seq<char>)>::empty()) =~~= seq![pa]);
    }
    assert(render_pairs(sorted, 2) =~= Seq::<char>::empty());
    assert(render_pairs(sorted, 1) =~= seq!['&'] + "b"@ + seq!['='] + v2);
    assert(render_pairs(sorted, 0) =~= "a"@ + seq!['='] + v1 + (seq!['&'] + "b"@ + seq!['=']
        + v2));
    assert(render_query(sorted) =~= seq!['?'] + "a"@ + seq!['='] + v1 + seq!['&'] + "b"@
        + seq!['='] + v2);
}

/// A one-fragment pattern: a single static segment.
proof fn lemma_static_segs(w: Seq<char>)
    requires
        w.len() > 0,
        frag_clean(w, '/'),
        w[0] != ':',
    ensures
        spec_parse_segments(seq!['/'] + w) =~~= seq![SegView::Static(w)],
{
    assert(frags_clean(seq![w], '/'));
    assert(join_slash(seq![w]) =~= seq!['/'] + w) by {
        assert(seq![w].drop_first() =~= Seq::<Seq<char>>::empty());
        assert(join_slash(Seq::<Seq<char>>::empty()) =~= Seq::<char>::empty());
    }
    crate::strutil::lemma_split_of_join(seq![w]);
    let sf = split_frags(seq!['/'] + w, '/');
    assert(sf =~~= seq![Seq::<char>::empty(), w]);
    assert(seg_of_frag(Seq::<char>::empty()) is None);
    assert(seg_of_frag(w) == Some(SegView::Static(w)));
    assert(sf.drop_last() =~= seq![Seq::<char>::empty()]);
    assert(seq![Seq::<char>::empty()].drop_last() =~= Seq::<Seq<char>>::empty());
    assert(segs_of_frags(Seq::<Seq<char>>::empty()) =~= Seq::<SegView>::empty());
    assert(seq![Seq::<char>::empty()].last() == Seq::<char>::empty());
    assert(segs_of_frags(seq![Seq::<char>::empty()]) =~= Seq::<SegView>::empty());
    assert(sf.last() == w);
    assert(segs_of_frags(sf) =~~= seq![SegView::Static(w)]);
}

/// Matching a one-static-segment pattern means: exactly one fragment,
/// and it is the static text.
proof fn lemma_single_static_match(vs: crate::model::VariantSpec, w: Seq<char>, ps: Seq<Seq<char>>)
    requires
        vs.kind.path_view() is Some,
        !vs.kind.is_nesting(),
        variant_segs(vs) =~~= seq![SegView::Static(w)],
    ensures
        variant_matches(vs, ps) == (ps.len() == 1 && ps[0] == w),
{
    let segs = variant_segs(vs);
    assert(segs.drop_last() =~= Seq::<SegView>::empty());
    assert(crate::parse::req_count(Seq::<SegView>::empty()) == 0);
    assert(segs.last() == SegView::Static(w));
    assert(crate::parse::req_count(segs) == 1);
    if ps.len() == 1 && ps[0] == w {
        assert forall|k: int|
            0 <= k < segs.len() && (#[trigger] segs[k]) is Static implies k < ps.len() && ps[k]
            == segs[k].text() by {
            assert(k == 0);
        }
        assert(variant_matches(vs, ps));
    }
    if variant_matches(vs, ps) {
        assert(segs[0] is Static);
        assert(ps[0] == segs[0].text());
    }
}

/// No required parameter can be fatal in an all-static pattern.
proof fn lemma_static_no_fatal(w: Seq<char>, fields: Seq<crate::model::FieldSpec>, ps: Seq<Seq<char>>)
    ensures
        fatal_param(seq![SegView::Static(w)], fields, ps, 0) is None,
{
    assert(fatal_param(seq![SegView::Static(w)], fields, ps, 1) is None);
}

/// How one committed static leaf parses: its bare value.
proof fn lemma_commit_static(t: RouteTable, input: Seq<char>, i: int, w: Seq<char>)
    requires
        0 <= i < t.variants@.len(),
        t.variants@[i].kind.path_view() is Some,
        !t.variants@[i].kind.is_nesting(),
        t.variants@[i].fields@.len() == 0,
        variant_segs(t.variants@[i]) =~~= seq![SegView::Static(w)],
        url_frags(input).len() == 1,
        url_frags(input)[0] == w,
    ensures
        parse_from(t, input, url_frags(input), url_query(input), i) == Ok::<RouteValView, ErrView>(
            RouteValView { variant: i, slots: Seq::<Option<FieldValV>>::empty(), nested: None },
        ),
{
    let ps = url_frags(input);
    let qs = url_query(input);
    let vs = t.variants@[i];
    lemma_single_static_match(vs, w, ps);
    lemma_static_no_fatal(w, vs.fields@, ps);
    assert(fatal_param(variant_segs(vs), vs.fields@, ps, 0) is None);
    assert(slots_of(vs.fields@, variant_segs(vs), ps, qs) =~= Seq::<Option<FieldValV>>::empty());
}

/// The shape of an admin-style table: three static leaves, `/users`,
/// `/settings` and `/404`, each without fields.
pub open spec fn admin_shape(t: RouteTable) -> bool {
    &&& t.variants@.len() == 3
    &&& t.variants@[0].kind matches RouteKind::Leaf { path } && path@ == "/users"@
    &&& t.variants@[1].kind matches RouteKind::Leaf { path } && path@ == "/settings"@
    &&& t.variants@[2].kind matches RouteKind::Leaf { path } && path@ == "/404"@
    &&& t.variants@[0].fields@.len() == 0
    &&& t.variants@[1].fields@.len() == 0
    &&& t.variants@[2].fields@.len() == 0
}

/// The route value an `AdminRoutes` value stands for in a table of the
/// admin shape.
pub open spec fn abs_admin(a: AdminRoutes) -> RouteValView {
    RouteValView {
        variant: match a {
            AdminRoutes::AdminUsers => 0int,
            AdminRoutes::AdminSettings => 1int,
            AdminRoutes::AdminNotFound => 2int,
        },
        slots: Seq::<Option<FieldValV>>::empty(),
        nested: None,
    }
}

/// The generic interpreter and the expanded admin parser agree: on any
/// table of the admin shape and any input, the interpreter returns
/// exactly the value standing for what the expansion parses, and the
/// very same failure otherwise.
pub proof fn lemma_interpreter_matches_admin(t: RouteTable, input: Seq<char>)
    requires
        admin_shape(t),
    ensures
        spec_parse_route(t, input) == (match spec_admin_from(input) {
            Ok(a) => Ok::<RouteValView, ErrView>(abs_admin(a)),
            Err(e) => Err::<RouteValView, ErrView>(e),
        }),
{
    reveal_strlit("/users");
    reveal_strlit("users");
    reveal_strlit("/settings");
    reveal_strlit("settings");
    reveal_strlit("/404");
    reveal_strlit("404");
    let ps = url_frags(input);
    let qs = url_query(input);
    let v0 = t.variants@[0];
    let v1 = t.variants@[1];
    let v2 = t.variants@[2];
    assert("/users"@ =~= seq!['/'] + "users"@);
    assert("/settings"@ =~= seq!['/'] + "settings"@);
    assert("/404"@ =~= seq!['/'] + "404"@);
    assert(frag_clean("users"@, '/') && "users"@[0] != ':');
    assert(frag_clean("settings"@, '/') && "settings"@[0] != ':');
    assert(frag_clean("404"@, '/') && "404"@[0] != ':');
    lemma_static_segs("users"@);
    lemma_static_segs("settings"@);
    lemma_static_segs("404"@);
    assert(variant_segs(v0) =~~= seq![SegView::Static("users"@)]);
    assert(variant_segs(v1) =~~= seq![SegView::Static("settings"@)]);
    assert(variant_segs(v2) =~~= seq![SegView::Static("404"@)]);
    lemma_single_static_match(v0, "users"@, ps);
    lemma_single_static_match(v1, "settings"@, ps);
    lemma_single_static_match(v2, "404"@, ps);
    assert(spec_parse_route(t, input) == parse_from(t, input, ps, qs, 0));
    if ps.len() == 1 && ps[0] == "users"@ {
        lemma_commit_static(t, input, 0, "users"@);
        assert(spec_admin_from(input) == Ok::<AdminRoutes, ErrView>(AdminRoutes::AdminUsers));
    } else if ps.len() == 1 && ps[0] == "settings"@ {
        assert(!variant_matches(v0, ps));
        lemma_parse_skip(t, input, ps, qs, 1);
        lemma_commit_static(t, input, 1, "settings"@);
        assert(spec_admin_from(input) == Ok::<AdminRoutes, ErrView>(AdminRoutes::AdminSettings));
    } else if ps.len() == 1 && ps[0] == "404"@ {
        assert(!variant_matches(v0, ps));
        assert(!variant_matches(v1, ps));
        lemma_parse_skip(t, input, ps, qs, 2);
        lemma_commit_static(t, input, 2, "404"@);
        assert(spec_admin_from(input) == Ok::<AdminRoutes, ErrView>(AdminRoutes::AdminNotFound));
    } else {
        assert(!variant_matches(v0, ps));
        assert(!variant_matches(v1, ps));
        assert(!variant_matches(v2, ps));
        lemma_parse_skip(t, input, ps, qs, 3);
        assert(parse_from(t, input, ps, qs, 3) == Err::<RouteValView, ErrView>(
            ErrView::NoMatch { input },
        ));
        assert(spec_admin_from(input) == Err::<AdminRoutes, ErrView>(ErrView::NoMatch { input }));
    }
}

/// The root pattern `/` has no segments.
proof fn lemma_root_segs()
    ensures
        spec_parse_segments("/"@) =~~= Seq::<SegView>::empty(),
{
    reveal_strlit("/");
    let s = "/"@;
    assert(s[0] == '/');
    assert(s.drop_first() =~= Seq::<char>::empty());
    assert(split_frags(Seq::<char>::empty(), '/') =~= seq![Seq::<char>::empty()]);
    assert(split_frags(s, '/') =~= seq![Seq::<char>::empty(), Seq::<char>::empty()]);
    let two = seq![Seq::<char>::empty(), Seq::<char>::empty()];
    assert(seg_of_frag(Seq::<char>::empty()) is None);
    assert(two.drop_last() =~= seq![Seq::<char>::empty()]);
    assert(seq![Seq::<char>::empty()].drop_last() =~= Seq::<Seq<char>>::empty());
    assert(segs_of_frags(Seq::<Seq<char>>::empty()) =~= Seq::<SegView>::empty());
    assert(seq![Seq::<char>::empty()].last() == Seq::<char>::empty());
    assert(segs_of_frags(seq![Seq::<char>::empty()]) =~= Seq::<SegView>::empty());
    assert(two.last() == Seq::<char>::empty());
    assert(segs_of_frags(two) =~= Seq::<SegView>::empty());
}

/// A two-fragment pattern of one static segment and one required
/// parameter, such as `/user/:id`.
proof fn lemma_static_param_segs(u: Seq<char>, pn: Seq<char>, n: Seq<char>)
    requires
        u.len() > 0,
        frag_clean(u, '/'),
        u[0] != ':',
        pn =~= seq![':'] + n,
        n.len() > 0,
        frag_clean(n, '/'),
        n[0] != ':',
        n.last() != '?',
    ensures
        spec_parse_segments(seq!['/'] + u + seq!['/'] + pn) =~~= seq![
            SegView::Static(u),
            SegView::Param(n),
        ],
{
    assert(frag_clean(pn, '/')) by {
        assert(forall|j: int| 1 <= j < pn.len() ==> pn[j] == n[j - 1]);
    }
    assert(frags_clean(seq![u, pn], '/'));
    assert(join_slash(seq![u, pn]) =~= seq!['/'] + u + seq!['/'] + pn) by {
        assert(seq![u, pn].drop_first() =~= seq![pn]);
        assert(seq![pn].drop_first() =~= Seq::<Seq<char>>::empty());
        assert(join_slash(Seq::<Seq<char>>::empty()) =~= Seq::<char>::empty());
        assert(join_slash(seq![pn]) =~= seq!['/'] + pn);
    }
    crate::strutil::lemma_split_of_join(seq![u, pn]);
    let sf = split_frags(seq!['/'] + u + seq!['/'] + pn, '/');
    assert(sf =~~= seq![Seq::<char>::empty(), u, pn]);
    assert(seg_of_frag(Seq::<char>::empty()) is None);
    assert(seg_of_frag(u) == Some(SegView::Static(u)));
    assert(pn[0] == ':');
    assert(pn.last() == n.last());
    assert(trim_colons(pn) =~= n) by {
        assert(pn.drop_first() =~= n);
        assert(trim_colons(n) == n);
    }
    assert(seg_of_frag(pn) == Some(SegView::Param(n)));
    assert(sf.drop_last() =~= seq![Seq::<char>::empty(), u]);
    assert(seq![Seq::<char>::empty(), u].drop_last() =~= seq![Seq::<char>::empty()]);
    assert(seq![Seq::<char>::empty()].drop_last() =~= Seq::<Seq<char>>::empty());
    assert(segs_of_frags(Seq::<Seq<char>>::empty()) =~= Seq::<SegView>::empty());
    assert(seq![Seq::<char>::empty()].last() == Seq::<char>::empty());
    assert(segs_of_frags(seq![Seq::<char>::empty()]) =~= Seq::<SegView>::empty());
    assert(seq![Seq::<char>::empty(), u].last() == u);
    assert(segs_of_frags(seq![Seq::<char>::empty(), u]) =~~= seq![SegView::Static(u)]);
    assert(sf.last() == pn);
    assert(segs_of_frags(sf) =~~= seq![SegView::Static(u), SegView::Param(n)]);
}

/// Matching a static-then-parameter pattern means: exactly two
/// fragments, the first being the static text.
proof fn lemma_static_param_match(
    vs: crate::model::VariantSpec,
    u: Seq<char>,
    n: Seq<char>,
    ps: Seq<Seq<char>>,
)
    requires
        vs.kind.path_view() is Some,
        !vs.kind.is_nesting(),
        variant_segs(vs) =~~= seq![SegView::Static(u), SegView::Param(n)],
    ensures
        variant_matches(vs, ps) == (ps.len() == 2 && ps[0] == u),
{
    let segs = variant_segs(vs);
    assert(segs.drop_last() =~= seq![SegView::Static(u)]);
    assert(seq![SegView::Static(u)].drop_last() =~= Seq::<SegView>::empty());
    assert(crate::parse::req_count(Seq::<SegView>::empty()) == 0);
    assert(seq![SegView::Static(u)].last() == SegView::Static(u));
    assert(crate::parse::req_count(seq![SegView::Static(u)]) == 1);
    assert(segs.last() == SegView::Param(n));
    assert(crate::parse::req_count(segs) == 2);
    if ps.len() == 2 && ps[0] == u {
        assert forall|k: int|
            0 <= k < segs.len() && (#[trigger] segs[k]) is Static implies k < ps.len() && ps[k]
            == segs[k].text() by {
            assert(k == 0);
        }
        assert(variant_matches(vs, ps));
    }
    if variant_matches(vs, ps) {
        assert(segs[0] is Static);
        assert(ps[0] == segs[0].text());
    }
}

/// The shape of the whole example table: the six variants of the
/// expanded enum, their paths, their fields, and the nested admin table.
pub open spec fn test_shape(t: RouteTable) -> bool {
    &&& t.variants@.len() == 6
    &&& t.variants@[0].kind matches RouteKind::Leaf { path } && path@ == "/"@
    &&& t.variants@[0].fields@.len() == 0
    &&& t.variants@[1].kind matches RouteKind::Leaf { path } && path@ == "/about"@
    &&& t.variants@[1].fields@.len() == 0
    &&& t.variants@[2].kind matches RouteKind::Leaf { path } && path@ == "/user/:id"@
    &&& t.variants@[2].fields@.len() == 1
    &&& t.variants@[2].fields@[0].name@ == "id"@
    &&& t.variants@[2].fields@[0].ty is UInt
    &&& t.variants@[3].kind matches RouteKind::Leaf { path } && path@ == "/post/:id"@
    &&& t.variants@[3].fields@.len() == 2
    &&& t.variants@[3].fields@[0].name@ == "id"@
    &&& t.variants@[3].fields@[0].ty is UInt
    &&& t.variants@[3].fields@[1].name@ == "comment"@
    &&& t.variants@[3].fields@[1].ty is Text
    &&& t.variants@[4].kind matches RouteKind::Parent { path, table, .. } && path@ == "/admin"@
        && admin_shape(*table)
    &&& t.variants@[4].fields@.len() == 0
    &&& t.variants@[5].kind matches RouteKind::Leaf { path } && path@ == "/404"@
    &&& t.variants@[5].fields@.len() == 0
}

/// The route value a `TestRoutes` value stands for in a table of the
/// example shape.
pub open spec fn abs_test(v: TestRoutesView) -> RouteValView {
    match v {
        TestRoutesView::Home => RouteValView {
            variant: 0,
            slots: Seq::<Option<FieldValV>>::empty(),
            nested: None,
        },
        TestRoutesView::About => RouteValView {
            variant: 1,
            slots: Seq::<Option<FieldValV>>::empty(),
            nested: None,
        },
        TestRoutesView::User { id } => RouteValView {
            variant: 2,
            slots: seq![Some(FieldValV::UInt(id))],
            nested: None,
        },
        TestRoutesView::Post { id, comment } => RouteValView {
            variant: 3,
            slots: seq![
                Some(FieldValV::UInt(id)),
                match comment {
                    Some(c) => Some(FieldValV::Text(c)),
                    None => None,
                },
            ],
            nested: None,
        },
        TestRoutesView::Admin(a) => RouteValView {
            variant: 4,
            slots: Seq::<Option<FieldValV>>::empty(),
            nested: Some(Box::new(abs_admin(a))),
        },
        TestRoutesView::NotFound => RouteValView {
            variant: 5,
            slots: Seq::<Option<FieldValV>>::empty(),
            nested: None,
        },
    }
}

/// The generic interpreter and the expanded routes agree: on any table
/// of the example shape and any input at all, the interpreter returns
/// exactly the route value standing for what the expansion parses, and
/// the very same failure otherwise — nested admin parsing included.
pub proof fn lemma_interpreter_matches_expansion(t: RouteTable, input: Seq<char>)
    requires
        test_shape(t),
    ensures
        spec_parse_route(t, input) == (match spec_test_from(input) {
            Ok(v) => Ok::<RouteValView, ErrView>(abs_test(v)),
            Err(e) => Err::<RouteValView, ErrView>(e),
        }),
{
    reveal_strlit("/");
    reveal_strlit("/about");
    reveal_strlit("about");
    reveal_strlit("/user/:id");
    reveal_strlit("user");
    reveal_strlit(":id");
    reveal_strlit("id");
    reveal_strlit("/post/:id");
    reveal_strlit("post");
    reveal_strlit("/admin");
    reveal_strlit("admin");
    reveal_strlit("/404");
    reveal_strlit("404");
    reveal_strlit("comment");
    let ps = url_frags(input);
    let qs = url_query(input);
    let v0 = t.variants@[0];
    let v1 = t.variants@[1];
    let v2 = t.variants@[2];
    let v3 = t.variants@[3];
    let v4 = t.variants@[4];
    let v5 = t.variants@[5];
    lemma_root_segs();
    assert(variant_segs(v0) =~~= Seq::<SegView>::empty());
    assert("/about"@ =~= seq!['/'] + "about"@);
    lemma_static_segs("about"@);
    assert(variant_segs(v1) =~~= seq![SegView::Static("about"@)]);
    assert("/user/:id"@ =~= seq!['/'] + "user"@ + seq!['/'] + ":id"@);
    assert(":id"@ =~= seq![':'] + "id"@);
    lemma_static_param_segs("user"@, ":id"@, "id"@);
    assert(variant_segs(v2) =~~= seq![SegView::Static("user"@), SegView::Param("id"@)]);
    assert("/post/:id"@ =~= seq!['/'] + "post"@ + seq!['/'] + ":id"@);
    lemma_static_param_segs("post"@, ":id"@, "id"@);
    assert(variant_segs(v3) =~~= seq![SegView::Static("post"@), SegView::Param("id"@)]);
    assert("/admin"@ =~= seq!['/'] + "admin"@);
    lemma_static_segs("admin"@);
    assert(variant_segs(v4) =~~= seq![SegView::Static("admin"@)]);
    lemma_static_segs("404"@);
    assert("/404"@ =~= seq!['/'] + "404"@);
    assert(variant_segs(v5) =~~= seq![SegView::Static("404"@)]);
    // Matching conditions, variant by variant.
    assert(crate::parse::req_count(Seq::<SegView>::empty()) == 0);
    assert(variant_matches(v0, ps) == (ps.len() == 0)) by {
        if ps.len() == 0 {
            assert(variant_matches(v0, ps));
        }
    }
    lemma_single_static_match(v1, "about"@, ps);
    lemma_static_param_match(v2, "user"@, "id"@, ps);
    lemma_static_param_match(v3, "post"@, "id"@, ps);
    assert(variant_matches(v4, ps) == (ps.len() >= 1 && ps[0] == "admin"@)) by {
        let segs = variant_segs(v4);
        assert(segs.drop_last() =~= Seq::<SegView>::empty());
        assert(segs.last() == SegView::Static("admin"@));
        assert(crate::parse::req_count(segs) == 1);
        assert(v4.kind.is_nesting());
        if ps.len() >= 1 && ps[0] == "admin"@ {
            assert forall|k: int|
                0 <= k < segs.len() && (#[trigger] segs[k]) is Static implies k < ps.len() && ps[k]
                == segs[k].text() by {
                assert(k == 0);
            }
            assert(variant_matches(v4, ps));
        }
        if variant_matches(v4, ps) {
            assert(segs[0] is Static);
            assert(ps[0] == segs[0].text());
        }
    }
    lemma_single_static_match(v5, "404"@, ps);
    // Distinctness of the static prefixes that share a length.
    assert("about"@[1] == 'b' && "admin"@[1] == 'd');
    assert("user"@[0] == 'u' && "post"@[0] == 'p');
    assert(spec_parse_route(t, input) == parse_from(t, input, ps, qs, 0));
    if ps.len() == 0 {
        assert(variant_matches(v0, ps));
        assert(fatal_param(variant_segs(v0), v0.fields@, ps, 0) is None);
        assert(slots_of(v0.fields@, variant_segs(v0), ps, qs) =~= Seq::<Option<FieldValV>>::empty());
        assert(parse_from(t, input, ps, qs, 0) == Ok::<RouteValView, ErrView>(abs_test(
            TestRoutesView::Home,
        )));
        assert(spec_parse_route(t, input) == (match spec_test_from(input) {
            Ok(v) => Ok::<RouteValView, ErrView>(abs_test(v)),
            Err(e) => Err::<RouteValView, ErrView>(e),
        }));
    } else if ps.len() == 1 && ps[0] == "about"@ {
        lemma_parse_skip(t, input, ps, qs, 1);
        lemma_commit_static(t, input, 1, "about"@);
        assert(spec_parse_route(t, input) == (match spec_test_from(input) {
            Ok(v) => Ok::<RouteValView, ErrView>(abs_test(v)),
            Err(e) => Err::<RouteValView, ErrView>(e),
        }));
    } else if ps.len() == 2 && ps[0] == "user"@ {
        lemma_parse_skip(t, input, ps, qs, 2);
        let segs = variant_segs(v2);
        crate::validate::lemma_field_idx_unique(v2.fields@, "id"@, 0);
        assert(fatal_param(segs, v2.fields@, ps, 2) is None);
        assert(frag_at(ps, 1) == ps[1]);
        if spec_parse_u64(ps[1]) is None {
            assert(parse_by_ty(v2.fields@[0].ty, frag_at(ps, 1)) is None);
            assert(fatal_param(segs, v2.fields@, ps, 1) == Some("id"@));
            assert(fatal_param(segs, v2.fields@, ps, 0) == Some("id"@));
        } else {
            let id = spec_parse_u64(ps[1])->Some_0;
            assert(parse_by_ty(v2.fields@[0].ty, frag_at(ps, 1)) == Some(FieldValV::UInt(id)));
            assert(fatal_param(segs, v2.fields@, ps, 1) is None);
            assert(fatal_param(segs, v2.fields@, ps, 0) is None);
            crate::parse::lemma_seg_binding_unique(segs, "id"@, 1);
            assert(slots_of(v2.fields@, segs, ps, qs) =~= seq![Some(FieldValV::UInt(id))]);
        }
        assert(spec_parse_route(t, input) == (match spec_test_from(input) {
            Ok(v) => Ok::<RouteValView, ErrView>(abs_test(v)),
            Err(e) => Err::<RouteValView, ErrView>(e),
        }));
    } else if ps.len() == 2 && ps[0] == "post"@ {
        lemma_parse_skip(t, input, ps, qs, 3);
        let segs = variant_segs(v3);
        crate::validate::lemma_field_idx_unique(v3.fields@, "id"@, 0);
        assert(fatal_param(segs, v3.fields@, ps, 2) is None);
        assert(frag_at(ps, 1) == ps[1]);
        if spec_parse_u64(ps[1]) is None {
            assert(parse_by_ty(v3.fields@[0].ty, frag_at(ps, 1)) is None);
            assert(fatal_param(segs, v3.fields@, ps, 1) == Some("id"@));
            assert(fatal_param(segs, v3.fields@, ps, 0) == Some("id"@));
        } else {
            let id = spec_parse_u64(ps[1])->Some_0;
            assert(parse_by_ty(v3.fields@[0].ty, frag_at(ps, 1)) == Some(FieldValV::UInt(id)));
            assert(fatal_param(segs, v3.fields@, ps, 1) is None);
            assert(fatal_param(segs, v3.fields@, ps, 0) is None);
            crate::parse::lemma_seg_binding_unique(segs, "id"@, 1);
            assert(!segs[0].binds("comment"@));
            assert(!segs[1].binds("comment"@));
            crate::parse::lemma_seg_binding_unique(segs, "comment"@, 2);
            let cslot = slot_of(v3.fields@[1], segs, ps, qs);
            assert(cslot == (match lookup_pairs(qs, "comment"@) {
                Some(raw) => Some(FieldValV::Text(raw)),
                None => None::<FieldValV>,
            }));
            assert(slots_of(v3.fields@, segs, ps, qs) =~= seq![Some(FieldValV::UInt(id)), cslot]);
            let c = lookup_pairs(qs, "comment"@);
            assert(spec_test_from(input) == Ok::<TestRoutesView, ErrView>(TestRoutesView::Post {
                id,
                comment: c,
            }));
            assert(abs_test(TestRoutesView::Post { id, comment: c }).slots =~= seq![
                Some(FieldValV::UInt(id)),
                cslot,
            ]);
            assert(parse_from(t, input, ps, qs, 3) == Ok::<RouteValView, ErrView>(abs_test(
                TestRoutesView::Post { id, comment: c },
            )));
        }
        assert(spec_parse_route(t, input) == (match spec_test_from(input) {
            Ok(v) => Ok::<RouteValView, ErrView>(abs_test(v)),
            Err(e) => Err::<RouteValView, ErrView>(e),
        }));
    } else if ps.len() >= 1 && ps[0] == "admin"@ {
        lemma_parse_skip(t, input, ps, qs, 4);
        let segs = variant_segs(v4);
        let nested = v4.kind.nested_table();
        assert(admin_shape(nested));
        assert(remaining_input(segs, ps) == tail_input(ps)) by {
            if ps.len() > 1 {
                assert(ps.skip(1).len() > 0);
            } else {
                assert(ps.skip(1).len() == 0);
            }
        }
        lemma_interpreter_matches_admin(nested, tail_input(ps));
        assert(slots_of(v4.fields@, segs, ps, qs) =~= Seq::<Option<FieldValV>>::empty());
        assert(spec_parse_route(t, input) == (match spec_test_from(input) {
            Ok(v) => Ok::<RouteValView, ErrView>(abs_test(v)),
            Err(e) => Err::<RouteValView, ErrView>(e),
        }));
    } else if ps.len() == 1 && ps[0] == "404"@ {
        lemma_parse_skip(t, input, ps, qs, 5);
        lemma_commit_static(t, input, 5, "404"@);
        assert(spec_parse_route(t, input) == (match spec_test_from(input) {
            Ok(v) => Ok::<RouteValView, ErrView>(abs_test(v)),
            Err(e) => Err::<RouteValView, ErrView>(e),
        }));
    } else {
        lemma_parse_skip(t, input, ps, qs, 6);
        assert(spec_parse_route(t, input) == (match spec_test_from(input) {
            Ok(v) => Ok::<RouteValView, ErrView>(abs_test(v)),
            Err(e) => Err::<RouteValView, ErrView>(e),
        }));
    }
}

/// Every fragment a split yields is free of the separator.
proof fn lemma_split_frags_clean(s: Seq<char>, sep: char)
    ensures
        forall|k: int|
            0 <= k < split_frags(s, sep).len() ==> frag_clean(
                #[trigger] split_frags(s, sep)[k],
                sep,
            ),
    decreases s.len(),
{
    if s.len() == 0 {
        assert(frag_clean(split_frags(s, sep)[0], sep));
    } else if s[0] == sep {
        lemma_split_frags_clean(s.drop_first(), sep);
        assert(forall|k: int|
            1 <= k < split_frags(s, sep).len() ==> split_frags(s, sep)[k] == split_frags(
                s.drop_first(),
                sep,
            )[k - 1]);
        assert(frag_clean(split_frags(s, sep)[0], sep));
    } else {
        lemma_split_frags_clean(s.drop_first(), sep);
        crate::strutil::lemma_split_frags_len(s.drop_first(), sep);
        let rest = split_frags(s.drop_first(), sep);
        assert(frag_clean(rest[0], sep));
        assert forall|j: int|
            0 <= j < (seq![s[0]] + rest[0]).len() implies (seq![s[0]] + rest[0])[j] != sep by {
            if j > 0 {
                assert((seq![s[0]] + rest[0])[j] == rest[0][j - 1]);
            }
        }
        assert(forall|k: int|
            1 <= k < split_frags(s, sep).len() ==> split_frags(s, sep)[k] == rest[k]);
    }
}

/// The text of every static segment a pattern yields is non-empty and
/// free of `/`, since the grammar reads it out of one `/`-split
/// fragment.
proof fn lemma_static_texts_clean(fr: Seq<Seq<char>>)
    requires
        forall|k: int| 0 <= k < fr.len() ==> frag_clean(#[trigger] fr[k], '/'),
    ensures
        forall|k: int|
            0 <= k < segs_of_frags(fr).len() && (#[trigger] segs_of_frags(fr)[k]) is Static ==> {
                &&& segs_of_frags(fr)[k].text().len() > 0
                &&& frag_clean(segs_of_frags(fr)[k].text(), '/')
            },
    decreases fr.len(),
{
    if fr.len() != 0 {
        assert(forall|k: int|
            0 <= k < fr.drop_last().len() ==> frag_clean(#[trigger] fr.drop_last()[k], '/'));
        lemma_static_texts_clean(fr.drop_last());
        let rest = segs_of_frags(fr.drop_last());
        match seg_of_frag(fr.last()) {
            Some(s) => {
                assert(segs_of_frags(fr) == rest.push(s));
                assert(frag_clean(fr.last(), '/'));
                assert(forall|k: int| 0 <= k < rest.len() ==> segs_of_frags(fr)[k] == rest[k]);
            },
            None => {},
        }
    }
}

/// An all-static pattern demands every fragment: it has no optional
/// segments to spare.
proof fn lemma_all_static_req(segs: Seq<SegView>)
    requires
        forall|k: int| 0 <= k < segs.len() ==> (#[trigger] segs[k]) is Static,
    ensures
        crate::parse::req_count(segs) == segs.len(),
        fatal_param(segs, Seq::<crate::model::FieldSpec>::empty(), Seq::<Seq<char>>::empty(), 0)
            is None,
    decreases segs.len(),
{
    if segs.len() != 0 {
        assert(forall|k: int|
            0 <= k < segs.drop_last().len() ==> (#[trigger] segs.drop_last()[k]) is Static);
        lemma_all_static_req(segs.drop_last());
        assert(segs.last() is Static);
    }
    lemma_fatal_all_static(segs, Seq::<crate::model::FieldSpec>::empty(), Seq::<Seq<char>>::empty(), 0);
}

/// No required parameter can fail where no segment is a parameter.
proof fn lemma_fatal_all_static(
    segs: Seq<SegView>,
    fields: Seq<crate::model::FieldSpec>,
    ps: Seq<Seq<char>>,
    i: int,
)
    requires
        0 <= i,
        forall|k: int| 0 <= k < segs.len() ==> !((#[trigger] segs[k]) is Param),
    ensures
        fatal_param(segs, fields, ps, i) is None,
    decreases segs.len() - i,
{
    if i < segs.len() {
        lemma_fatal_all_static(segs, fields, ps, i + 1);
    }
}

/// The fragments an all-static pattern renders are its texts, whatever
/// the fields and slots.
proof fn lemma_build_frags_all_static(
    segs: Seq<SegView>,
    fields: Seq<crate::model::FieldSpec>,
    slots: Seq<Option<FieldValV>>,
    i: int,
)
    requires
        0 <= i <= segs.len(),
        forall|k: int| 0 <= k < segs.len() ==> (#[trigger] segs[k]) is Static,
    ensures
        build_frags(segs, fields, slots, i) =~~= Seq::new(
            (segs.len() - i) as nat,
            |k: int| segs[i + k].text(),
        ),
    decreases segs.len() - i,
{
    if i < segs.len() {
        lemma_build_frags_all_static(segs, fields, slots, i + 1);
        assert(segs[i] is Static);
        assert(build_frags(segs, fields, slots, i) =~~= seq![segs[i].text()] + build_frags(
            segs,
            fields,
            slots,
            i + 1,
        ));
    }
}

/// The round trip, over arbitrary tables: a non-nesting variant whose
/// pattern is all static text and that declares no fields renders to a
/// path that parses back to exactly its own bare value, provided none
/// of its statics holds a `?` and no earlier-declared variant matches
/// the rendered path — an earlier variant may legitimately capture it,
/// since the first match wins.
pub proof fn lemma_static_leaf_round_trip(t: RouteTable, v: RouteValView)
    requires
        0 <= v.variant < t.variants@.len(),
        !t.variants@[v.variant].kind.is_nesting(),
        t.variants@[v.variant].kind.path_view() is Some,
        t.variants@[v.variant].fields@.len() == 0,
        v.slots.len() == 0,
        v.nested is None,
        forall|k: int|
            0 <= k < variant_segs(t.variants@[v.variant]).len() ==> (#[trigger] variant_segs(
                t.variants@[v.variant],
            )[k]) is Static,
        forall|k: int|
            0 <= k < variant_segs(t.variants@[v.variant]).len() ==> frag_clean(
                (#[trigger] variant_segs(t.variants@[v.variant])[k]).text(),
                '?',
            ),
        forall|j: int|
            0 <= j < v.variant ==> !variant_matches(
                #[trigger] t.variants@[j],
                url_frags(spec_build_path(t, v)),
            ),
    ensures
        spec_parse_route(t, spec_build_path(t, v)) == Ok::<RouteValView, ErrView>(v),
{
    let vs = t.variants@[v.variant];
    let p = vs.kind.path_view()->Some_0;
    let segs = variant_segs(vs);
    let texts = Seq::new(segs.len() as nat, |k: int| segs[k].text());
    lemma_split_frags_clean(p, '/');
    lemma_static_texts_clean(split_frags(p, '/'));
    assert(forall|k: int|
        0 <= k < texts.len() ==> (#[trigger] texts[k]).len() > 0 && frag_clean(texts[k], '/')
            && frag_clean(texts[k], '?'));
    lemma_build_frags_all_static(segs, vs.fields@, v.slots, 0);
    assert(build_frags(segs, vs.fields@, v.slots, 0) =~~= texts);
    assert(build_query(vs.fields@, v.slots, segs, 0) =~= Seq::<(Seq<char>, Seq<char>)>::empty());
    assert(sort_by_key(Seq::<(Seq<char>, Seq<char>)>::empty()) =~= Seq::<(
        Seq<char>,
        Seq<char>,
    )>::empty());
    assert(render_query(Seq::<(Seq<char>, Seq<char>)>::empty()) =~= Seq::<char>::empty());
    let own = spec_build_variant_path(vs, v.slots);
    let built = spec_build_path(t, v);
    assert(built == own);
    let ps = url_frags(built);
    if segs.len() == 0 {
        assert(texts.len() == 0);
        assert(join_slash(texts).len() == 0);
        assert(own =~= seq!['/']);
        assert(own[0] == '/');
        assert(frag_clean(own, '?'));
        lemma_url_no_query(own);
        assert(own.drop_first() =~= Seq::<char>::empty());
        assert(split_frags(Seq::<char>::empty(), '/') =~= seq![Seq::<char>::empty()]);
        assert(split_frags(own, '/') =~= seq![Seq::<char>::empty(), Seq::<char>::empty()]);
        let two = seq![Seq::<char>::empty(), Seq::<char>::empty()];
        assert(nonempty_frags(Seq::<Seq<char>>::empty()) =~= Seq::<Seq<char>>::empty());
        assert(seq![Seq::<char>::empty()].drop_last() =~= Seq::<Seq<char>>::empty());
        assert(seq![Seq::<char>::empty()].last().len() == 0);
        assert(nonempty_frags(seq![Seq::<char>::empty()]) =~= Seq::<Seq<char>>::empty());
        assert(two.drop_last() =~= seq![Seq::<char>::empty()]);
        assert(two.last().len() == 0);
        assert(nonempty_frags(two) =~= Seq::<Seq<char>>::empty());
        assert(path_frags(own) =~~= Seq::<Seq<char>>::empty());
        assert(ps =~~= texts);
    } else {
        assert(join_slash(texts).len() > 0) by {
            assert(join_slash(texts) == seq!['/'] + texts.first() + join_slash(
                texts.drop_first(),
            ));
        }
        assert(own =~= join_slash(texts));
        assert(forall|k: int| 0 <= k < texts.len() ==> frag_clean(#[trigger] texts[k], '?'));
        lemma_join_clean(texts, '?');
        assert(frags_clean(texts, '/'));
        lemma_path_frags_of_join(texts);
        lemma_url_no_query(own);
        assert(ps =~~= texts);
    }
    lemma_all_static_req(segs);
    assert(crate::parse::req_count(segs) == segs.len());
    assert(arity_ok(segs, ps.len() as int, false));
    assert forall|k: int|
        0 <= k < segs.len() && (#[trigger] segs[k]) is Static implies k < ps.len() && ps[k]
        == segs[k].text() by {
        assert(ps[k] == texts[k]);
    }
    assert(variant_matches(vs, ps));
    let qs = url_query(built);
    lemma_parse_skip(t, built, ps, qs, v.variant);
    lemma_fatal_all_static(segs, vs.fields@, ps, 0);
    assert(slots_of(vs.fields@, segs, ps, qs) =~= Seq::<Option<FieldValV>>::empty());
    assert(v.slots =~= Seq::<Option<FieldValV>>::empty());
    assert(parse_from(t, built, ps, qs, v.variant as int) == Ok::<RouteValView, ErrView>(
        RouteValView {
            variant: v.variant,
            slots: slots_of(vs.fields@, segs, ps, qs),
            nested: None,
        },
    ));
    assert(v == RouteValView { variant: v.variant, slots: v.slots, nested: v.nested });
}

/// A pattern without optional segments demands every fragment.
proof fn lemma_no_optional_req(segs: Seq<SegView>)
    requires
        forall|k: int| 0 <= k < segs.len() ==> !((#[trigger] segs[k]) is OptionalParam),
    ensures
        crate::parse::req_count(segs) == segs.len(),
    decreases segs.len(),
{
    if segs.len() != 0 {
        assert(forall|k: int|
            0 <= k < segs.drop_last().len() ==> !((#[trigger] segs.drop_last()[k])
                is OptionalParam));
        lemma_no_optional_req(segs.drop_last());
        assert(!(segs.last() is OptionalParam));
    }
}

/// What one position of a rendered leaf pattern holds: static text
/// verbatim, or the bound field's rendered value.
pub open spec fn rendered_at(
    segs: Seq<SegView>,
    fields: Seq<crate::model::FieldSpec>,
    slots: Seq<Option<FieldValV>>,
    k: int,
) -> Seq<char> {
    match segs[k] {
        SegView::Static(text) => text,
        SegView::Param(n) => match slot_at(slots, field_idx(fields, n)) {
            Some(x) => x.render(),
            None => Seq::<char>::empty(),
        },
        SegView::OptionalParam(n) => match slot_at(slots, field_idx(fields, n)) {
            Some(x) => x.render(),
            None => Seq::<char>::empty(),
        },
    }
}

/// Without optional segments, and with every required parameter's slot
/// set, rendering emits exactly one fragment per segment.
proof fn lemma_build_frags_no_optional(
    segs: Seq<SegView>,
    fields: Seq<crate::model::FieldSpec>,
    slots: Seq<Option<FieldValV>>,
    i: int,
)
    requires
        0 <= i <= segs.len(),
        forall|k: int| 0 <= k < segs.len() ==> !((#[trigger] segs[k]) is OptionalParam),
        forall|k: int|
            0 <= k < segs.len() && (#[trigger] segs[k]) is Param ==> slot_at(
                slots,
                field_idx(fields, segs[k]->Param_0),
            ) is Some,
    ensures
        build_frags(segs, fields, slots, i) =~~= Seq::new(
            (segs.len() - i) as nat,
            |k: int| rendered_at(segs, fields, slots, i + k),
        ),
    decreases segs.len() - i,
{
    if i < segs.len() {
        lemma_build_frags_no_optional(segs, fields, slots, i + 1);
        assert(build_frags(segs, fields, slots, i) =~~= seq![
            rendered_at(segs, fields, slots, i),
        ] + build_frags(segs, fields, slots, i + 1));
    }
}

/// No committed parameter fails when every bound slot's rendering
/// parses back to it.
proof fn lemma_no_fatal_renders(
    segs: Seq<SegView>,
    fields: Seq<crate::model::FieldSpec>,
    slots: Seq<Option<FieldValV>>,
    ps: Seq<Seq<char>>,
    i: int,
)
    requires
        0 <= i,
        ps.len() == segs.len(),
        forall|k: int| 0 <= k < segs.len() ==> ps[k] == rendered_at(segs, fields, slots, k),
        forall|k: int|
            0 <= k < segs.len() && (#[trigger] segs[k]) is Param ==> {
                let j = field_idx(fields, segs[k]->Param_0);
                &&& slot_at(slots, j) is Some
                &&& 0 <= j < fields.len()
                &&& slot_at(slots, j)->Some_0.has_ty(fields[j].ty)
            },
    ensures
        fatal_param(segs, fields, ps, i) is None,
    decreases segs.len() - i,
{
    if i < segs.len() {
        lemma_no_fatal_renders(segs, fields, slots, ps, i + 1);
        if segs[i] is Param {
            let n = segs[i]->Param_0;
            let j = field_idx(fields, n);
            let x = slot_at(slots, j)->Some_0;
            assert(frag_at(ps, i) == x.render());
            match x {
                FieldValV::UInt(u) => {
                    lemma_parse_of_dec_digits(u);
                },
                FieldValV::Text(_) => {},
            }
            assert(parse_by_ty(fields[j].ty, frag_at(ps, i)) is Some);
        }
    }
}

/// No query pair is emitted when every unused field is unset.
proof fn lemma_build_query_none(
    fields: Seq<crate::model::FieldSpec>,
    slots: Seq<Option<FieldValV>>,
    segs: Seq<SegView>,
    i: int,
)
    requires
        0 <= i,
        forall|j: int|
            0 <= j < fields.len() ==> used_in_path(segs, (#[trigger] fields[j]).name@) || slot_at(
                slots,
                j,
            ) is None,
    ensures
        build_query(fields, slots, segs, i) =~~= Seq::<(Seq<char>, Seq<char>)>::empty(),
    decreases fields.len() - i,
{
    if i < fields.len() {
        lemma_build_query_none(fields, slots, segs, i + 1);
    }
}

/// The round trip, over arbitrary validated tables: a non-nesting
/// variant whose pattern holds static text and required parameters —
/// no optional segments — renders to a path that parses back to exactly
/// its own value, for arbitrary well-formed field values whose
/// renderings are non-empty and free of `/` and `?`, with every bound
/// field set, every unbound field unset, no static holding a `?`, and
/// no earlier-declared variant matching the rendered path (an earlier
/// variant may legitimately capture it, since the first match wins).
pub proof fn lemma_leaf_round_trip(t: RouteTable, v: RouteValView)
    requires
        crate::validate::table_wf(t),
        crate::validate::table_valid(t),
        crate::value::value_wf(t, v),
        !t.variants@[v.variant].kind.is_nesting(),
        t.variants@[v.variant].kind.path_view() is Some,
        forall|k: int|
            0 <= k < variant_segs(t.variants@[v.variant]).len() ==> !((#[trigger] variant_segs(
                t.variants@[v.variant],
            )[k]) is OptionalParam),
        forall|k: int|
            0 <= k < variant_segs(t.variants@[v.variant]).len() && (#[trigger] variant_segs(
                t.variants@[v.variant],
            )[k]) is Static ==> frag_clean(variant_segs(t.variants@[v.variant])[k].text(), '?'),
        forall|j: int|
            0 <= j < v.slots.len() ==> ((#[trigger] v.slots[j]) is Some == used_in_path(
                variant_segs(t.variants@[v.variant]),
                t.variants@[v.variant].fields@[j].name@,
            )),
        forall|j: int|
            0 <= j < v.slots.len() && (#[trigger] v.slots[j]) is Some ==> {
                let r = v.slots[j]->Some_0.render();
                &&& r.len() > 0
                &&& frag_clean(r, '/')
                &&& frag_clean(r, '?')
            },
        forall|j: int|
            0 <= j < v.variant ==> !variant_matches(
                #[trigger] t.variants@[j],
                url_frags(spec_build_path(t, v)),
            ),
    ensures
        spec_parse_route(t, spec_build_path(t, v)) == Ok::<RouteValView, ErrView>(v),
{
    let vs = t.variants@[v.variant];
    let p = vs.kind.path_view()->Some_0;
    let segs = variant_segs(vs);
    let fields = vs.fields@;
    let slots = v.slots;
    crate::validate::lemma_diags_from_empty(t, 0);
    crate::validate::lemma_variant_rules(vs);
    crate::validate::lemma_table_wf_all(t, 0);
    assert(crate::validate::distinct_fields(fields));
    assert(slots.len() == fields.len());
    // Every required parameter names a field whose slot is set and
    // carries a value of the field's category.
    assert forall|k: int| 0 <= k < segs.len() && (#[trigger] segs[k]) is Param implies {
        let j = field_idx(fields, segs[k]->Param_0);
        &&& 0 <= j < fields.len()
        &&& fields[j].name@ == segs[k]->Param_0
        &&& slot_at(slots, j) is Some
        &&& slot_at(slots, j)->Some_0.has_ty(fields[j].ty)
    } by {
        let n = segs[k]->Param_0;
        assert(crate::validate::seg_rule_ok(fields, segs[k]));
        crate::validate::lemma_field_idx_props(fields, n);
        let j = field_idx(fields, n);
        assert(segs[k].binds(fields[j].name@));
        assert(used_in_path(segs, fields[j].name@));
        assert(slots[j] is Some);
        assert(crate::value::slot_wf(fields[j], slots[j]));
    }
    let texts = Seq::new(segs.len() as nat, |k: int| rendered_at(segs, fields, slots, k));
    lemma_build_frags_no_optional(segs, fields, slots, 0);
    assert(build_frags(segs, fields, slots, 0) =~~= texts);
    lemma_build_query_none(fields, slots, segs, 0);
    assert(sort_by_key(Seq::<(Seq<char>, Seq<char>)>::empty()) =~= Seq::<(
        Seq<char>,
        Seq<char>,
    )>::empty());
    assert(render_query(Seq::<(Seq<char>, Seq<char>)>::empty()) =~= Seq::<char>::empty());
    // Every rendered fragment is non-empty and free of `/` and `?`.
    lemma_split_frags_clean(p, '/');
    lemma_static_texts_clean(split_frags(p, '/'));
    assert forall|k: int| 0 <= k < texts.len() implies (#[trigger] texts[k]).len() > 0
        && frag_clean(texts[k], '/') && frag_clean(texts[k], '?') by {
        if segs[k] is Static {
            assert(texts[k] == segs[k].text());
        } else {
            assert(segs[k] is Param);
            let j = field_idx(fields, segs[k]->Param_0);
            assert(texts[k] == slots[j]->Some_0.render());
        }
    }
    let own = spec_build_variant_path(vs, slots);
    let built = spec_build_path(t, v);
    assert(built == own);
    let ps = url_frags(built);
    let qs = url_query(built);
    if segs.len() == 0 {
        assert(texts.len() == 0);
        assert(join_slash(texts).len() == 0);
        assert(own =~= seq!['/']);
        assert(own[0] == '/');
        assert(frag_clean(own, '?'));
        lemma_url_no_query(own);
        assert(own.drop_first() =~= Seq::<char>::empty());
        assert(split_frags(Seq::<char>::empty(), '/') =~= seq![Seq::<char>::empty()]);
        assert(split_frags(own, '/') =~= seq![Seq::<char>::empty(), Seq::<char>::empty()]);
        let two = seq![Seq::<char>::empty(), Seq::<char>::empty()];
        assert(nonempty_frags(Seq::<Seq<char>>::empty()) =~= Seq::<Seq<char>>::empty());
        assert(seq![Seq::<char>::empty()].drop_last() =~= Seq::<Seq<char>>::empty());
        assert(seq![Seq::<char>::empty()].last().len() == 0);
        assert(nonempty_frags(seq![Seq::<char>::empty()]) =~= Seq::<Seq<char>>::empty());
        assert(two.drop_last() =~= seq![Seq::<char>::empty()]);
        assert(two.last().len() == 0);
        assert(nonempty_frags(two) =~= Seq::<Seq<char>>::empty());
        assert(path_frags(own) =~~= Seq::<Seq<char>>::empty());
        assert(ps =~~= texts);
    } else {
        assert(join_slash(texts).len() > 0) by {
            assert(join_slash(texts) == seq!['/'] + texts.first() + join_slash(
                texts.drop_first(),
            ));
        }
        assert(own =~= join_slash(texts));
        lemma_join_clean(texts, '?');
        assert(frags_clean(texts, '/'));
        lemma_path_frags_of_join(texts);
        lemma_url_no_query(own);
        assert(ps =~~= texts);
    }
    assert(qs =~~= Seq::<(Seq<char>, Seq<char>)>::empty());
    lemma_no_optional_req(segs);
    assert(arity_ok(segs, ps.len() as int, false));
    assert forall|k: int|
        0 <= k < segs.len() && (#[trigger] segs[k]) is Static implies k < ps.len() && ps[k]
        == segs[k].text() by {
        assert(ps[k] == texts[k]);
    }
    assert(variant_matches(vs, ps));
    lemma_parse_skip(t, built, ps, qs, v.variant);
    lemma_no_fatal_renders(segs, fields, slots, ps, 0);
    // Each slot is recovered: a bound field from its (last) binding
    // position, an unbound field as absent from the empty query.
    assert forall|j: int| 0 <= j < fields.len() implies slots_of(fields, segs, ps, qs)[j]
        == slots[j] by {
        let f = fields[j];
        crate::parse::lemma_seg_binding_props(segs, f.name@);
        let k = seg_binding(segs, f.name@);
        if k < segs.len() {
            assert(segs[k].binds(f.name@));
            assert(segs[k] is Param);
            assert(used_in_path(segs, f.name@));
            crate::validate::lemma_field_idx_self(fields, j);
            assert(field_idx(fields, segs[k]->Param_0) == j);
            assert(frag_at(ps, k) == texts[k]);
            assert(texts[k] == slots[j]->Some_0.render());
            let x = slots[j]->Some_0;
            match x {
                FieldValV::UInt(u) => {
                    lemma_parse_of_dec_digits(u);
                },
                FieldValV::Text(_) => {},
            }
            assert(slot_of(f, segs, ps, qs) == Some(x));
        } else {
            assert(!used_in_path(segs, f.name@));
            assert(slots[j] is None);
            assert(lookup_pairs(qs, f.name@) is None);
            assert(slot_of(f, segs, ps, qs) is None);
        }
    }
    assert(slots_of(fields, segs, ps, qs) =~= slots);
    assert(parse_from(t, built, ps, qs, v.variant as int) == Ok::<RouteValView, ErrView>(
        RouteValView {
            variant: v.variant,
            slots: slots_of(fields, segs, ps, qs),
            nested: None,
        },
    ));
    assert(v == RouteValView { variant: v.variant, slots: v.slots, nested: v.nested });
}

/// Rendering distributes over concatenation of fragment lists.
proof fn lemma_join_slash_concat(a: Seq<Seq<char>>, b: Seq<Seq<char>>)
    ensures
        join_slash(a + b) =~= join_slash(a) + join_slash(b),
    decreases a.len(),
{
    if a.len() == 0 {
        assert(a + b =~= b);
        assert(join_slash(a) =~= Seq::<char>::empty());
    } else {
        assert((a + b).len() > 0);
        assert((a + b).first() == a.first());
        assert((a + b).drop_first() =~= a.drop_first() + b);
        lemma_join_slash_concat(a.drop_first(), b);
        assert(join_slash(a + b) =~= seq!['/'] + a.first() + (join_slash(a.drop_first())
            + join_slash(b)));
    }
}

/// A canonical rendering of non-empty clean fragments neither ends nor
/// doubles a slash: trimming leaves it alone, except for its single
/// leading one.
proof fn lemma_join_trims(fr: Seq<Seq<char>>)
    requires
        fr.len() > 0,
        frags_clean(fr, '/'),
    ensures
        crate::combine::trim_trailing_slashes(join_slash(fr)) == join_slash(fr),
        crate::combine::trim_leading_slashes(join_slash(fr)) =~= join_slash(fr).drop_first(),
        join_slash(fr).len() > 1,
        join_slash(fr)[0] == '/',
    decreases fr.len(),
{
    let w = join_slash(fr);
    assert(w == seq!['/'] + fr.first() + join_slash(fr.drop_first()));
    assert(fr.first().len() > 0);
    assert(w[0] == '/');
    if fr.len() == 1 {
        assert(fr.drop_first() =~= Seq::<Seq<char>>::empty());
        assert(join_slash(fr.drop_first()) =~= Seq::<char>::empty());
        assert(w =~= seq!['/'] + fr.first());
        assert(w.last() == fr.first().last());
        assert(frag_clean(fr.first(), '/'));
        assert(w.last() != '/');
        assert(crate::combine::trim_trailing_slashes(w) == w);
    } else {
        assert(forall|k: int|
            0 <= k < fr.drop_first().len() ==> frag_clean(#[trigger] fr.drop_first()[k], '/')
                && fr.drop_first()[k].len() > 0);
        lemma_join_trims(fr.drop_first());
        let tail = join_slash(fr.drop_first());
        assert(w.last() == tail.last()) by {
            assert(tail.len() > 0);
            assert(w[w.len() - 1] == tail[tail.len() - 1]);
        }
        assert(tail.last() != '/') by {
            assert(crate::combine::trim_trailing_slashes(tail) == tail);
            if tail.last() == '/' {
                assert(crate::combine::trim_trailing_slashes(tail)
                    == crate::combine::trim_trailing_slashes(tail.drop_last()));
                lemma_trim_trailing_len(tail.drop_last());
                assert(false);
            }
        }
        assert(w.last() != '/');
        assert(crate::combine::trim_trailing_slashes(w) == w);
    }
    assert(w.drop_first() =~= fr.first() + join_slash(fr.drop_first()));
    assert(w.drop_first()[0] == fr.first()[0]);
    assert(fr.first()[0] != '/');
    assert(crate::combine::trim_leading_slashes(w) =~= crate::combine::trim_leading_slashes(
        w.drop_first(),
    ));
    assert(crate::combine::trim_leading_slashes(w.drop_first()) =~= w.drop_first());
}

/// Trimming never lengthens a string.
proof fn lemma_trim_trailing_len(s: Seq<char>)
    ensures
        crate::combine::trim_trailing_slashes(s).len() <= s.len(),
    decreases s.len(),
{
    if s.len() > 0 && s.last() == '/' {
        lemma_trim_trailing_len(s.drop_last());
    }
}

/// The shape a leaf value renders to: the root for an empty pattern,
/// else its fragments — each non-empty and free of `/` and `?` — behind
/// slashes, with no query.
proof fn lemma_leaf_render_shape(t: RouteTable, v: RouteValView)
    requires
        crate::validate::table_wf(t),
        crate::validate::table_valid(t),
        crate::value::value_wf(t, v),
        !t.variants@[v.variant].kind.is_nesting(),
        t.variants@[v.variant].kind.path_view() is Some,
        forall|k: int|
            0 <= k < variant_segs(t.variants@[v.variant]).len() ==> !((#[trigger] variant_segs(
                t.variants@[v.variant],
            )[k]) is OptionalParam),
        forall|k: int|
            0 <= k < variant_segs(t.variants@[v.variant]).len() && (#[trigger] variant_segs(
                t.variants@[v.variant],
            )[k]) is Static ==> frag_clean(variant_segs(t.variants@[v.variant])[k].text(), '?'),
        forall|j: int|
            0 <= j < v.slots.len() ==> ((#[trigger] v.slots[j]) is Some == used_in_path(
                variant_segs(t.variants@[v.variant]),
                t.variants@[v.variant].fields@[j].name@,
            )),
        forall|j: int|
            0 <= j < v.slots.len() && (#[trigger] v.slots[j]) is Some ==> {
                let r = v.slots[j]->Some_0.render();
                &&& r.len() > 0
                &&& frag_clean(r, '/')
                &&& frag_clean(r, '?')
            },
    ensures
        ({
            let vs = t.variants@[v.variant];
            let segs = variant_segs(vs);
            let texts = Seq::new(
                segs.len() as nat,
                |k: int| rendered_at(segs, vs.fields@, v.slots, k),
            );
            &&& spec_build_path(t, v) == (if texts.len() == 0 {
                seq!['/']
            } else {
                join_slash(texts)
            })
            &&& forall|k: int|
                0 <= k < texts.len() ==> (#[trigger] texts[k]).len() > 0 && frag_clean(
                    texts[k],
                    '/',
                ) && frag_clean(texts[k], '?')
        }),
{
    let vs = t.variants@[v.variant];
    let p = vs.kind.path_view()->Some_0;
    let segs = variant_segs(vs);
    let fields = vs.fields@;
    let slots = v.slots;
    crate::validate::lemma_diags_from_empty(t, 0);
    crate::validate::lemma_variant_rules(vs);
    crate::validate::lemma_table_wf_all(t, 0);
    assert(slots.len() == fields.len());
    assert forall|k: int| 0 <= k < segs.len() && (#[trigger] segs[k]) is Param implies {
        let j = field_idx(fields, segs[k]->Param_0);
        &&& 0 <= j < fields.len()
        &&& slot_at(slots, j) is Some
    } by {
        let n = segs[k]->Param_0;
        assert(crate::validate::seg_rule_ok(fields, segs[k]));
        crate::validate::lemma_field_idx_props(fields, n);
        let j = field_idx(fields, n);
        assert(segs[k].binds(fields[j].name@));
        assert(used_in_path(segs, fields[j].name@));
    }
    let texts = Seq::new(segs.len() as nat, |k: int| rendered_at(segs, fields, slots, k));
    lemma_build_frags_no_optional(segs, fields, slots, 0);
    assert(build_frags(segs, fields, slots, 0) =~~= texts);
    lemma_build_query_none(fields, slots, segs, 0);
    assert(sort_by_key(Seq::<(Seq<char>, Seq<char>)>::empty()) =~= Seq::<(
        Seq<char>,
        Seq<char>,
    )>::empty());
    assert(render_query(Seq::<(Seq<char>, Seq<char>)>::empty()) =~= Seq::<char>::empty());
    lemma_split_frags_clean(p, '/');
    lemma_static_texts_clean(split_frags(p, '/'));
    assert forall|k: int| 0 <= k < texts.len() implies (#[trigger] texts[k]).len() > 0
        && frag_clean(texts[k], '/') && frag_clean(texts[k], '?') by {
        if segs[k] is Static {
            assert(texts[k] == segs[k].text());
        } else {
            assert(segs[k] is Param);
            let j = field_idx(fields, segs[k]->Param_0);
            assert(texts[k] == slots[j]->Some_0.render());
        }
    }
    if texts.len() == 0 {
        assert(join_slash(texts).len() == 0);
        assert(spec_build_variant_path(vs, slots) =~= seq!['/']);
    } else {
        assert(join_slash(texts).len() > 0) by {
            assert(join_slash(texts) == seq!['/'] + texts.first() + join_slash(
                texts.drop_first(),
            ));
        }
        assert(spec_build_variant_path(vs, slots) =~= join_slash(texts));
    }
}

/// The round trip through one level of nesting, over arbitrary
/// validated tables: a nesting variant renders its static prefix joined
/// with the nested value's own rendering, and parsing the result
/// commits back to the same variant and recovers the very same nested
/// value — provided the nested value meets the leaf round-trip
/// conditions inside its own table and no earlier variant of either
/// table captures the respective path first.
pub proof fn lemma_nested_round_trip(t: RouteTable, v: RouteValView)
    requires
        crate::validate::table_wf(t),
        crate::validate::table_valid(t),
        crate::value::value_wf(t, v),
        t.variants@[v.variant].kind.is_nesting(),
        forall|k: int|
            0 <= k < variant_segs(t.variants@[v.variant]).len() ==> frag_clean(
                (#[trigger] variant_segs(t.variants@[v.variant])[k]).text(),
                '?',
            ),
        ({
            let nt = t.variants@[v.variant].kind.nested_table();
            let vn = *v.nested->Some_0;
            &&& !nt.variants@[vn.variant].kind.is_nesting()
            &&& nt.variants@[vn.variant].kind.path_view() is Some
            &&& forall|k: int|
                0 <= k < variant_segs(nt.variants@[vn.variant]).len() ==> !((
                #[trigger] variant_segs(nt.variants@[vn.variant])[k]) is OptionalParam)
            &&& forall|k: int|
                0 <= k < variant_segs(nt.variants@[vn.variant]).len() && (#[trigger] variant_segs(
                    nt.variants@[vn.variant],
                )[k]) is Static ==> frag_clean(variant_segs(nt.variants@[vn.variant])[k].text(), '?')
            &&& forall|j: int|
                0 <= j < vn.slots.len() ==> ((#[trigger] vn.slots[j]) is Some == used_in_path(
                    variant_segs(nt.variants@[vn.variant]),
                    nt.variants@[vn.variant].fields@[j].name@,
                ))
            &&& forall|j: int|
                0 <= j < vn.slots.len() && (#[trigger] vn.slots[j]) is Some ==> {
                    let r = vn.slots[j]->Some_0.render();
                    &&& r.len() > 0
                    &&& frag_clean(r, '/')
                    &&& frag_clean(r, '?')
                }
            &&& forall|j: int|
                0 <= j < vn.variant ==> !variant_matches(
                    #[trigger] nt.variants@[j],
                    url_frags(spec_build_path(nt, vn)),
                )
        }),
        forall|j: int|
            0 <= j < v.variant ==> !variant_matches(
                #[trigger] t.variants@[j],
                url_frags(spec_build_path(t, v)),
            ),
    ensures
        spec_parse_route(t, spec_build_path(t, v)) == Ok::<RouteValView, ErrView>(v),
{
    let vs = t.variants@[v.variant];
    let p = vs.kind.path_view()->Some_0;
    let segs = variant_segs(vs);
    let nt = vs.kind.nested_table();
    let vn = *v.nested->Some_0;
    crate::validate::lemma_diags_from_empty(t, 0);
    crate::validate::lemma_variant_rules(vs);
    crate::validate::lemma_table_wf_all(t, 0);
    assert(vs.fields@.len() == 0);
    assert(v.slots.len() == 0);
    assert(crate::validate::table_wf(nt));
    assert(crate::validate::table_valid(nt));
    assert(crate::value::value_wf(nt, vn));
    // A valid nesting pattern is all static: a parameter would demand a
    // field, and a nesting variant declares none.
    assert forall|k: int| 0 <= k < segs.len() implies (#[trigger] segs[k]) is Static by {
        assert(crate::validate::seg_rule_ok(vs.fields@, segs[k]));
        match segs[k] {
            SegView::Param(n) => {
                crate::validate::lemma_field_idx_props(vs.fields@, n);
            },
            SegView::OptionalParam(n) => {
                crate::validate::lemma_field_idx_props(vs.fields@, n);
            },
            SegView::Static(_) => {},
        }
    }
    // The outer prefix.
    let ot = Seq::new(segs.len() as nat, |k: int| segs[k].text());
    lemma_build_frags_all_static(segs, vs.fields@, v.slots, 0);
    assert(build_frags(segs, vs.fields@, v.slots, 0) =~~= ot);
    lemma_build_query_none(vs.fields@, v.slots, segs, 0);
    assert(sort_by_key(Seq::<(Seq<char>, Seq<char>)>::empty()) =~= Seq::<(
        Seq<char>,
        Seq<char>,
    )>::empty());
    assert(render_query(Seq::<(Seq<char>, Seq<char>)>::empty()) =~= Seq::<char>::empty());
    lemma_split_frags_clean(p, '/');
    lemma_static_texts_clean(split_frags(p, '/'));
    assert forall|k: int| 0 <= k < ot.len() implies (#[trigger] ot[k]).len() > 0 && frag_clean(
        ot[k],
        '/',
    ) && frag_clean(ot[k], '?') by {
        assert(ot[k] == segs[k].text());
    }
    let own = spec_build_variant_path(vs, v.slots);
    if ot.len() == 0 {
        assert(join_slash(ot).len() == 0);
        assert(own =~= seq!['/']);
    } else {
        assert(join_slash(ot).len() > 0) by {
            assert(join_slash(ot) == seq!['/'] + ot.first() + join_slash(ot.drop_first()));
        }
        assert(own =~= join_slash(ot));
    }
    // The nested rendering and its round trip.
    let nvs = nt.variants@[vn.variant];
    let nsegs = variant_segs(nvs);
    let ntx = Seq::new(nsegs.len() as nat, |k: int| rendered_at(nsegs, nvs.fields@, vn.slots, k));
    lemma_leaf_render_shape(nt, vn);
    lemma_leaf_round_trip(nt, vn);
    let built_n = spec_build_path(nt, vn);
    let built = spec_build_path(t, v);
    assert(built == crate::combine::spec_combine_paths(own, built_n));
    // The combined path splits back into prefix and suffix fragments.
    let all = ot + ntx;
    assert(forall|k: int|
        0 <= k < all.len() ==> (#[trigger] all[k]).len() > 0 && frag_clean(all[k], '/')
            && frag_clean(all[k], '?'));
    if ot.len() == 0 && ntx.len() == 0 {
        assert(crate::combine::trim_trailing_slashes(seq!['/']) =~= Seq::<char>::empty()) by {
            assert(seq!['/'].drop_last() =~= Seq::<char>::empty());
            assert(crate::combine::trim_trailing_slashes(Seq::<char>::empty())
                =~= Seq::<char>::empty());
        }
        assert(crate::combine::trim_leading_slashes(seq!['/']) =~= Seq::<char>::empty()) by {
            assert(seq!['/'].drop_first() =~= Seq::<char>::empty());
            assert(crate::combine::trim_leading_slashes(Seq::<char>::empty())
                =~= Seq::<char>::empty());
        }
        assert(built =~= seq!['/']);
        assert(built =~= join_slash(all) + seq!['/']) by {
            assert(all.len() == 0);
        }
    } else if ot.len() == 0 {
        assert(crate::combine::trim_trailing_slashes(seq!['/']) =~= Seq::<char>::empty()) by {
            assert(seq!['/'].drop_last() =~= Seq::<char>::empty());
            assert(crate::combine::trim_trailing_slashes(Seq::<char>::empty())
                =~= Seq::<char>::empty());
        }
        lemma_join_trims(ntx);
        assert(built =~= seq!['/'] + join_slash(ntx).drop_first());
        assert(built =~= join_slash(ntx)) by {
            assert(join_slash(ntx)[0] == '/');
        }
        assert(built =~= join_slash(all)) by {
            assert(all =~= ntx);
        }
    } else if ntx.len() == 0 {
        lemma_join_trims(ot);
        assert(crate::combine::trim_leading_slashes(seq!['/']) =~= Seq::<char>::empty()) by {
            assert(seq!['/'].drop_first() =~= Seq::<char>::empty());
            assert(crate::combine::trim_leading_slashes(Seq::<char>::empty())
                =~= Seq::<char>::empty());
        }
        assert(built =~= join_slash(ot));
        assert(built =~= join_slash(all)) by {
            assert(all =~= ot);
        }
    } else {
        lemma_join_trims(ot);
        lemma_join_trims(ntx);
        assert(built =~= join_slash(ot) + seq!['/'] + join_slash(ntx).drop_first());
        lemma_join_slash_concat(ot, ntx);
        assert(join_slash(all) =~= join_slash(ot) + join_slash(ntx));
        assert(join_slash(ntx) =~= seq!['/'] + join_slash(ntx).drop_first()) by {
            assert(join_slash(ntx)[0] == '/');
        }
        assert(built =~= join_slash(all));
    }
    let ps = url_frags(built);
    let qs = url_query(built);
    if all.len() == 0 {
        assert(built =~= seq!['/']);
        assert(built[0] == '/');
        assert(frag_clean(built, '?'));
        lemma_url_no_query(built);
        assert(built.drop_first() =~= Seq::<char>::empty());
        assert(split_frags(Seq::<char>::empty(), '/') =~= seq![Seq::<char>::empty()]);
        assert(split_frags(built, '/') =~= seq![Seq::<char>::empty(), Seq::<char>::empty()]);
        let two = seq![Seq::<char>::empty(), Seq::<char>::empty()];
        assert(nonempty_frags(Seq::<Seq<char>>::empty()) =~= Seq::<Seq<char>>::empty());
        assert(seq![Seq::<char>::empty()].drop_last() =~= Seq::<Seq<char>>::empty());
        assert(seq![Seq::<char>::empty()].last().len() == 0);
        assert(nonempty_frags(seq![Seq::<char>::empty()]) =~= Seq::<Seq<char>>::empty());
        assert(two.drop_last() =~= seq![Seq::<char>::empty()]);
        assert(two.last().len() == 0);
        assert(nonempty_frags(two) =~= Seq::<Seq<char>>::empty());
        assert(path_frags(built) =~~= Seq::<Seq<char>>::empty());
        assert(ps =~~= all);
    } else {
        lemma_join_clean(all, '?');
        assert(frags_clean(all, '/'));
        lemma_path_frags_of_join(all);
        lemma_url_no_query(built);
        assert(ps =~~= all);
    }
    // The outer variant matches and commits its suffix to the subtree.
    lemma_all_static_req(segs);
    assert(crate::parse::req_count(segs) == segs.len());
    assert(ps.len() >= segs.len());
    assert forall|k: int|
        0 <= k < segs.len() && (#[trigger] segs[k]) is Static implies k < ps.len() && ps[k]
        == segs[k].text() by {
        assert(ps[k] == all[k]);
        assert(all[k] == ot[k]);
    }
    assert(variant_matches(vs, ps));
    lemma_parse_skip(t, built, ps, qs, v.variant);
    assert(remaining_input(segs, ps) == built_n) by {
        assert(ps.skip(segs.len() as int) =~~= ntx);
        if ntx.len() > 0 {
            assert(built_n =~= join_slash(ntx));
        } else {
            assert(built_n =~= seq!['/']);
        }
    }
    assert(spec_parse_route(nt, built_n) == Ok::<RouteValView, ErrView>(vn));
    assert(slots_of(vs.fields@, segs, ps, qs) =~= Seq::<Option<FieldValV>>::empty());
    assert(v.slots =~= Seq::<Option<FieldValV>>::empty());
    assert(parse_from(t, built, ps, qs, v.variant as int) == Ok::<RouteValView, ErrView>(
        RouteValView {
            variant: v.variant,
            slots: slots_of(vs.fields@, segs, ps, qs),
            nested: Some(Box::new(vn)),
        },
    ));
    assert(v == RouteValView { variant: v.variant, slots: v.slots, nested: v.nested });
    assert(v.nested == Some(Box::new(vn)));
}

} // verus!
