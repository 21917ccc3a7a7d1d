//! Two concrete route enums and the code a route-enum expansion emits
//! for them: a parser from URL strings, a canonical path renderer, and a
//! lenient conversion that resolves to the fallback variant. Their
//! contracts pin the route semantics exactly: first match in declaration
//! order wins, a committed required parameter or nested suffix that fails
//! to parse is fatal, and optional query fields degrade to `None`.

use vstd::prelude::*;
use vstd::string::StringExecFns;
use vstd::std_specs::cmp::PartialEqSpec;
use crate::parse::{err_message, url_frags, url_query, ErrView, RouteError};
use crate::strutil::{
    chars_eq, chars_to_string, dec_digits, join_slash, lookup_pairs, lookup_query, parse_u64,
    spec_parse_u64, str_to_chars, views,
};
use crate::{IntoPath, ToPath};

verus! {

/// The routes of a small application: a home page, a static page, two
/// parameterized pages, a nested admin area, and a fallback.
#[derive(Debug)]
pub enum TestRoutes {
    Home,
    About,
    User { id: u64 },
    Post { id: u64, comment: Option<String> },
    Admin(AdminRoutes),
    NotFound,
}

/// The admin area's own routes, nested under `/admin`.
#[derive(Debug, Clone, Copy, PartialEq, Eq, Structural)]
pub enum AdminRoutes {
    AdminUsers,
    AdminSettings,
    AdminNotFound,
}

/// The mathematical shape of a `TestRoutes` value.
pub enum TestRoutesView {
    Home,
    About,
    User { id: u64 },
    Post { id: u64, comment: Option<Seq<char>> },
    Admin(AdminRoutes),
    NotFound,
}

impl View for TestRoutes {
    type V = TestRoutesView;

    open spec fn view(&self) -> TestRoutesView {
        match self {
            TestRoutes::Home => TestRoutesView::Home,
            TestRoutes::About => TestRoutesView::About,
            TestRoutes::User { id } => TestRoutesView::User { id: *id },
            TestRoutes::Post { id, comment } => TestRoutesView::Post {
                id: *id,
                comment: match comment {
                    Some(c) => Some(c@),
                    None => None,
                },
            },
            TestRoutes::Admin(a) => TestRoutesView::Admin(*a),
            TestRoutes::NotFound => TestRoutesView::NotFound,
        }
    }
}

impl PartialEq for TestRoutes {
    /// Two route values are equal when they are the same variant with
    /// equal field values.
    fn eq(&self, other: &TestRoutes) -> (r: bool) {
        match (self, other) {
            (TestRoutes::Home, TestRoutes::Home) => true,
            (TestRoutes::About, TestRoutes::About) => true,
            (TestRoutes::User { id: a }, TestRoutes::User { id: b }) => *a == *b,
            (
                TestRoutes::Post { id: a, comment: ca },
                TestRoutes::Post { id: b, comment: cb },
            ) => *a == *b && (match (ca, cb) {
                (Some(x), Some(y)) => *x == *y,
                (None, None) => true,
                (Some(_), None) => false,
                (None, Some(_)) => false,
            }),
            (TestRoutes::Admin(a), TestRoutes::Admin(b)) => *a == *b,
            (TestRoutes::NotFound, TestRoutes::NotFound) => true,
            _ => false,
        }
    }
}

impl vstd::std_specs::cmp::PartialEqSpecImpl for TestRoutes {
    open spec fn obeys_eq_spec() -> bool {
        true
    }

    /// Equality means: the same variant, with equal field values; two
    /// comments are equal when they hold the same characters.
    open spec fn eq_spec(&self, other: &TestRoutes) -> bool {
        match (self, other) {
            (TestRoutes::Home, TestRoutes::Home) => true,
            (TestRoutes::About, TestRoutes::About) => true,
            (TestRoutes::User { id: a }, TestRoutes::User { id: b }) => a == b,
            (
                TestRoutes::Post { id: a, comment: ca },
                TestRoutes::Post { id: b, comment: cb },
            ) => a == b && (match (ca, cb) {
                (Some(x), Some(y)) => x@ == y@,
                (None, None) => true,
                (Some(_), None) => false,
                (None, Some(_)) => false,
            }),
            (TestRoutes::Admin(a), TestRoutes::Admin(b)) => a == b,
            (TestRoutes::NotFound, TestRoutes::NotFound) => true,
            _ => false,
        }
    }
}

/// What parsing a URL against `TestRoutes` returns, in declaration
/// order, first match winning: the root is `Home`; `/about` is `About`;
/// `/user/:id` and `/post/:id` commit, so an `id` that is no decimal
/// `u64` is a fatal error; `/post/:id` reads the optional `comment`
/// query field leniently; `/admin/...` commits its suffix to the nested
/// `AdminRoutes` parser and wraps its value or propagates failure; and
/// `/404` is the fallback variant's own route. Anything else matches no
/// route.
pub open spec fn spec_test_from(input: Seq<char>) -> Result<TestRoutesView, ErrView> {
    let ps = url_frags(input);
    let qs = url_query(input);
    if ps.len() == 0 {
        Ok(TestRoutesView::Home)
    } else if ps.len() == 1 && ps[0] == "about"@ {
        Ok(TestRoutesView::About)
    } else if ps.len() == 2 && ps[0] == "user"@ {
        match spec_parse_u64(ps[1]) {
            Some(id) => Ok(TestRoutesView::User { id }),
            None => Err(ErrView::ParamParse { param: "id"@ }),
        }
    } else if ps.len() == 2 && ps[0] == "post"@ {
        match spec_parse_u64(ps[1]) {
            Some(id) => Ok(
                TestRoutesView::Post { id, comment: lookup_pairs(qs, "comment"@) },
            ),
            None => Err(ErrView::ParamParse { param: "id"@ }),
        }
    } else if ps.len() >= 1 && ps[0] == "admin"@ {
        match spec_admin_from(tail_input(ps)) {
            Ok(a) => Ok(TestRoutesView::Admin(a)),
            Err(_) => Err(ErrView::Nested { input }),
        }
    } else if ps.len() == 1 && ps[0] == "404"@ {
        Ok(TestRoutesView::NotFound)
    } else {
        Err(ErrView::NoMatch { input })
    }
}

/// The path suffix handed to a nested parser: the fragments after the
/// matched prefix re-joined behind a slash, or the root when none remain.
pub open spec fn tail_input(ps: Seq<Seq<char>>) -> Seq<char> {
    if ps.len() > 1 {
        join_slash(ps.skip(1))
    } else {
        seq!['/']
    }
}

/// What parsing a URL against `AdminRoutes` returns: its three
/// single-segment routes in declaration order, or no match.
pub open spec fn spec_admin_from(input: Seq<char>) -> Result<AdminRoutes, ErrView> {
    let ps = url_frags(input);
    if ps.len() == 1 && ps[0] == "users"@ {
        Ok(AdminRoutes::AdminUsers)
    } else if ps.len() == 1 && ps[0] == "settings"@ {
        Ok(AdminRoutes::AdminSettings)
    } else if ps.len() == 1 && ps[0] == "404"@ {
        Ok(AdminRoutes::AdminNotFound)
    } else {
        Err(ErrView::NoMatch { input })
    }
}

/// The canonical URL of an `AdminRoutes` value.
pub open spec fn spec_admin_path(a: AdminRoutes) -> Seq<char> {
    match a {
        AdminRoutes::AdminUsers => "/users"@,
        AdminRoutes::AdminSettings => "/settings"@,
        AdminRoutes::AdminNotFound => "/404"@,
    }
}

/// The canonical URL of a `TestRoutes` value: path parameters rendered
/// in decimal, a set `comment` appended as the only query pair, and the
/// admin prefix joined with the nested value's own URL.
pub open spec fn spec_test_path(v: TestRoutesView) -> Seq<char> {
    match v {
        TestRoutesView::Home => "/"@,
        TestRoutesView::About => "/about"@,
        TestRoutesView::User { id } => "/user/"@ + dec_digits(id as nat),
        TestRoutesView::Post { id, comment } => "/post/"@ + dec_digits(id as nat) + (match comment {
            Some(c) => "?comment="@ + c,
            None => Seq::<char>::empty(),
        }),
        TestRoutesView::Admin(a) => "/admin"@ + spec_admin_path(a),
        TestRoutesView::NotFound => "/404"@,
    }
}

impl AdminRoutes {
    /// Parse a URL string into an `AdminRoutes` value, or report why no
    /// route matches.
    pub fn from_str(s: &str) -> (r: Result<AdminRoutes, String>)
        ensures
            match r {
                Ok(v) => spec_admin_from(s@) == Ok::<AdminRoutes, ErrView>(v),
                Err(e) => spec_admin_from(s@) is Err && e@ == err_message(
                    spec_admin_from(s@)->Err_0,
                ),
            },
    {
        let (ps, _qs) = crate::parse::url_parts(s);
        proof {
            assert(views(ps@) == url_frags(s@));
        }
        if ps.len() == 1 {
            proof {
                assert(views(ps@)[0] == ps@[0]@);
            }
            let users = str_to_chars("users");
            if chars_eq(&ps[0], &users) {
                return Ok(AdminRoutes::AdminUsers);
            }
            let settings = str_to_chars("settings");
            if chars_eq(&ps[0], &settings) {
                return Ok(AdminRoutes::AdminSettings);
            }
            let nf = str_to_chars("404");
            if chars_eq(&ps[0], &nf) {
                return Ok(AdminRoutes::AdminNotFound);
            }
        }
        let e = RouteError::NoMatch { input: String::from_str(s) };
        Err(e.message())
    }
}

impl ToPath for AdminRoutes {
    /// Render the canonical URL of this value.
    fn to_path(&self) -> (r: String)
        ensures
            r@ == spec_admin_path(*self),
    {
        let mut s = String::new();
        match self {
            AdminRoutes::AdminUsers => {
                s.append("/users");
            },
            AdminRoutes::AdminSettings => {
                s.append("/settings");
            },
            AdminRoutes::AdminNotFound => {
                s.append("/404");
            },
        }
        s
    }
}

impl TestRoutes {
    /// Parse a URL string into a `TestRoutes` value. An arity or static
    /// mismatch falls through to the next variant in declaration order;
    /// a matched variant commits, so a required parameter or a nested
    /// suffix that fails to parse fails the whole call.
    pub fn from_str(s: &str) -> (r: Result<TestRoutes, String>)
        ensures
            match r {
                Ok(v) => spec_test_from(s@) == Ok::<TestRoutesView, ErrView>(v@),
                Err(e) => spec_test_from(s@) is Err && e@ == err_message(
                    spec_test_from(s@)->Err_0,
                ),
            },
    {
        let (ps, qs) = crate::parse::url_parts(s);
        proof {
            assert(views(ps@) == url_frags(s@));
            if ps@.len() > 0 {
                assert(views(ps@)[0] == ps@[0]@);
            }
            if ps@.len() > 1 {
                assert(views(ps@)[1] == ps@[1]@);
            }
        }
        if ps.len() == 0 {
            return Ok(TestRoutes::Home);
        }
        let about = str_to_chars("about");
        if ps.len() == 1 && chars_eq(&ps[0], &about) {
            return Ok(TestRoutes::About);
        }
        let user = str_to_chars("user");
        if ps.len() == 2 && chars_eq(&ps[0], &user) {
            match parse_u64(&ps[1]) {
                Some(id) => {
                    return Ok(TestRoutes::User { id });
                },
                None => {
                    let e = RouteError::ParamParse { param: String::from_str("id") };
                    return Err(e.message());
                },
            }
        }
        let post = str_to_chars("post");
        if ps.len() == 2 && chars_eq(&ps[0], &post) {
            match parse_u64(&ps[1]) {
                Some(id) => {
                    let ck = str_to_chars("comment");
                    let comment = match lookup_query(&qs, &ck) {
                        Some(raw) => Some(chars_to_string(&raw)),
                        None => None,
                    };
                    return Ok(TestRoutes::Post { id, comment });
                },
                None => {
                    let e = RouteError::ParamParse { param: String::from_str("id") };
                    return Err(e.message());
                },
            }
        }
        let admin = str_to_chars("admin");
        if chars_eq(&ps[0], &admin) {
            let remaining: String;
            if ps.len() > 1 {
                let mut rest: Vec<Vec<char>> = Vec::new();
                let mut k: usize = 1;
                proof {
                    assert(views(rest@) =~= views(ps@).subrange(1, 1));
                }
                while k < ps.len()
                    invariant
                        1 <= k <= ps@.len(),
                        views(rest@) == views(ps@).subrange(1, k as int),
                    decreases ps@.len() - k,
                {
                    let frag = ps[k].clone();
                    proof {
                        assert(frag@ == ps@[k as int]@);
                        assert(views(ps@)[k as int] == ps@[k as int]@);
                    }
                    let ghost before = views(rest@);
                    rest.push(frag);
                    k = k + 1;
                    proof {
                        assert(views(rest@) =~~= before.push(views(ps@)[k - 1]));
                        assert(views(rest@) =~~= views(ps@).subrange(1, k as int));
                    }
                }
                let joined = crate::strutil::join_with_slash(&rest);
                remaining = chars_to_string(&joined);
                proof {
                    assert(views(ps@).subrange(1, views(ps@).len() as int) =~= views(ps@).skip(1));
                    assert(remaining@ == tail_input(views(ps@)));
                }
            } else {
                remaining = String::from_str("/");
                proof {
                    reveal_strlit("/");
                    assert(remaining@ =~= tail_input(views(ps@)));
                }
            }
            match AdminRoutes::from_str(remaining.as_str()) {
                Ok(a) => {
                    return Ok(TestRoutes::Admin(a));
                },
                Err(_) => {
                    let e = RouteError::Nested { input: String::from_str(s) };
                    return Err(e.message());
                },
            }
        }
        let nf = str_to_chars("404");
        if ps.len() == 1 && chars_eq(&ps[0], &nf) {
            return Ok(TestRoutes::NotFound);
        }
        let e = RouteError::NoMatch { input: String::from_str(s) };
        Err(e.message())
    }

    /// Parse leniently: any failure resolves to the fallback variant.
    /// This is the only place a parse failure is absorbed; the nested
    /// admin parser always propagates its own.
    pub fn from_route(s: &str) -> (r: TestRoutes)
        ensures
            r@ == (match spec_test_from(s@) {
                Ok(v) => v,
                Err(_) => TestRoutesView::NotFound,
            }),
    {
        match TestRoutes::from_str(s) {
            Ok(v) => v,
            Err(_) => TestRoutes::NotFound,
        }
    }
}

impl From<&str> for TestRoutes {
    /// The lenient conversion: any parse failure, of any kind, resolves
    /// to the designated fallback variant, and a matched variant comes
    /// back as itself.
    fn from(value: &str) -> (r: TestRoutes)
        ensures
            r@ == (match spec_test_from(value@) {
                Ok(v) => v,
                Err(_) => TestRoutesView::NotFound,
            }),
    {
        TestRoutes::from_route(value)
    }
}

/// The ensures on `from` above carries the conversion's whole contract;
/// a `TestRoutes` value holding a fresh `String` cannot be named by a
/// spec function, so vstd's `from_spec` cannot restate it and claims
/// nothing instead.
impl vstd::std_specs::convert::FromSpecImpl<&str> for TestRoutes {
    open spec fn obeys_from_spec() -> bool {
        false
    }

    open spec fn from_spec(value: &str) -> TestRoutes {
        arbitrary()
    }
}

impl ToPath for TestRoutes {
    /// Render the canonical URL of this value: parameters in decimal, a
    /// set `comment` as the sorted (sole) query pair, an absent one
    /// contributing nothing, and the admin prefix joined with the nested
    /// value's path.
    fn to_path(&self) -> (r: String)
        ensures
            r@ == spec_test_path(self@),
    {
        match self {
            TestRoutes::Home => {
                let mut s = String::new();
                s.append("/");
                s
            },
            TestRoutes::About => {
                let mut s = String::new();
                s.append("/about");
                s
            },
            TestRoutes::User { id } => {
                let mut s = String::new();
                s.append("/user/");
                let d = crate::strutil::u64_to_dec(*id);
                let ds = chars_to_string(&d);
                s.append(ds.as_str());
                s
            },
            TestRoutes::Post { id, comment } => {
                let mut s = String::new();
                s.append("/post/");
                let d = crate::strutil::u64_to_dec(*id);
                let ds = chars_to_string(&d);
                s.append(ds.as_str());
                match comment {
                    Some(c) => {
                        s.append("?comment=");
                        s.append(c.as_str());
                    },
                    None => {},
                }
                s
            },
            TestRoutes::Admin(a) => {
                let mut s = String::new();
                s.append("/admin");
                let nested = a.to_path();
                s.append(nested.as_str());
                s
            },
            TestRoutes::NotFound => {
                let mut s = String::new();
                s.append("/404");
                s
            },
        }
    }
}

impl IntoPath for TestRoutes {
    /// Consume the value and render its canonical URL.
    fn into_path(self) -> (r: String)
        ensures
            r@ == spec_test_path(self@),
    {
        self.to_path()
    }
}

impl IntoPath for AdminRoutes {
    /// Consume the value and render its canonical URL.
    fn into_path(self) -> (r: String)
        ensures
            r@ == spec_admin_path(self),
    {
        self.to_path()
    }
}

impl crate::Routable for TestRoutes {
    /// Parse a URL string against these routes.
    fn try_from_path(s: &str) -> (r: Result<TestRoutes, String>)
        ensures
            match r {
                Ok(v) => spec_test_from(s@) == Ok::<TestRoutesView, ErrView>(v@),
                Err(e) => spec_test_from(s@) is Err && e@ == err_message(
                    spec_test_from(s@)->Err_0,
                ),
            },
    {
        TestRoutes::from_str(s)
    }

    /// The designated fallback variant.
    fn fallback_route() -> (r: TestRoutes)
        ensures
            r@ == TestRoutesView::NotFound,
    {
        TestRoutes::NotFound
    }
}

impl crate::Routable for AdminRoutes {
    /// Parse a URL string against the admin routes.
    fn try_from_path(s: &str) -> (r: Result<AdminRoutes, String>)
        ensures
            match r {
                Ok(v) => spec_admin_from(s@) == Ok::<AdminRoutes, ErrView>(v),
                Err(e) => spec_admin_from(s@) is Err && e@ == err_message(
                    spec_admin_from(s@)->Err_0,
                ),
            },
    {
        AdminRoutes::from_str(s)
    }

    /// The designated fallback variant.
    fn fallback_route() -> (r: AdminRoutes)
        ensures
            r == AdminRoutes::AdminNotFound,
    {
        AdminRoutes::AdminNotFound
    }
}

} // verus!
