//! The behaviour of the two route enums: parsing, rendering, the lenient
//! conversion, and the commit semantics of required parameters and
//! nested subtrees.

use routable::routes::{AdminRoutes, TestRoutes};
use routable::{IntoPath, Routable, ToPath};

#[test]
fn test_from_str_home() {
    let route = TestRoutes::from_str("/").unwrap();
    assert_eq!(route, TestRoutes::Home);
}

#[test]
fn test_from_str_about() {
    let route = TestRoutes::from_str("/about").unwrap();
    assert_eq!(route, TestRoutes::About);
}

#[test]
fn test_from_str_user() {
    let route = TestRoutes::from_str("/user/42").unwrap();
    assert_eq!(route, TestRoutes::User { id: 42 });
}

#[test]
fn test_from_str_post_no_query() {
    let route = TestRoutes::from_str("/post/123").unwrap();
    assert_eq!(
        route,
        TestRoutes::Post {
            id: 123,
            comment: None
        }
    );
}

#[test]
fn test_from_str_post_with_query() {
    let route = TestRoutes::from_str("/post/456?comment=hello").unwrap();
    assert_eq!(
        route,
        TestRoutes::Post {
            id: 456,
            comment: Some("hello".to_string())
        }
    );
}

#[test]
fn test_from_str_unknown_fails() {
    let result = TestRoutes::from_str("/unknown");
    assert!(result.is_err());
}

#[test]
fn test_from_with_fallback() {
    let route: TestRoutes = "/unknown/path".into();
    assert_eq!(route, TestRoutes::NotFound);
}

#[test]
fn test_from_valid_route() {
    let route: TestRoutes = "/about".into();
    assert_eq!(route, TestRoutes::About);
}

#[test]
fn test_from_str_nested_admin_users() {
    let route = TestRoutes::from_str("/admin/users").unwrap();
    assert_eq!(route, TestRoutes::Admin(AdminRoutes::AdminUsers));
}

#[test]
fn test_from_str_nested_admin_settings() {
    let route = TestRoutes::from_str("/admin/settings").unwrap();
    assert_eq!(route, TestRoutes::Admin(AdminRoutes::AdminSettings));
}

#[test]
fn test_from_nested_with_fallback() {
    // When a nested route doesn't match, it falls back to the parent's fallback
    let route: TestRoutes = "/admin/unknown".into();
    assert_eq!(route, TestRoutes::NotFound);
}

#[test]
fn test_from_str_nested_fails() {
    // FromStr should error on invalid nested routes
    let result = TestRoutes::from_str("/admin/unknown");
    assert!(result.is_err());
}

#[test]
fn to_path_renders_every_variant() {
    assert_eq!(TestRoutes::Home.to_path(), "/");
    assert_eq!(TestRoutes::About.to_path(), "/about");
    assert_eq!(TestRoutes::User { id: 42 }.to_path(), "/user/42");
    assert_eq!(
        TestRoutes::Post {
            id: 7,
            comment: None
        }
        .to_path(),
        "/post/7"
    );
    assert_eq!(
        TestRoutes::Post {
            id: 7,
            comment: Some("hi".to_string())
        }
        .to_path(),
        "/post/7?comment=hi"
    );
    assert_eq!(
        TestRoutes::Admin(AdminRoutes::AdminSettings).to_path(),
        "/admin/settings"
    );
    assert_eq!(TestRoutes::NotFound.to_path(), "/404");
}

#[test]
fn to_path_is_deterministic() {
    let v = TestRoutes::Post {
        id: 99,
        comment: Some("x".to_string()),
    };
    let first = v.to_path();
    let second = v.to_path();
    assert_eq!(first, second);
}

#[test]
fn round_trip_concrete_values() {
    let values = vec![
        TestRoutes::Home,
        TestRoutes::About,
        TestRoutes::User { id: 0 },
        TestRoutes::User { id: u64::MAX },
        TestRoutes::Post {
            id: 3,
            comment: None,
        },
        TestRoutes::Post {
            id: 3,
            comment: Some("deep=value".to_string()),
        },
        TestRoutes::Post {
            id: 4,
            comment: Some("a?b/c".to_string()),
        },
        TestRoutes::Admin(AdminRoutes::AdminUsers),
        TestRoutes::Admin(AdminRoutes::AdminNotFound),
        TestRoutes::NotFound,
    ];
    for v in values {
        let path = v.to_path();
        let back = TestRoutes::from_str(&path).unwrap();
        assert_eq!(back, v);
    }
}

#[test]
fn committed_param_failure_is_fatal() {
    // A matched static prefix commits: a bad id errors instead of
    // falling through to a sibling.
    let result = TestRoutes::from_str("/user/abc");
    assert!(result.is_err());
    assert_eq!(
        result.unwrap_err(),
        "Failed to parse id as expected type".to_string()
    );
    let lenient: TestRoutes = "/user/abc".into();
    assert_eq!(lenient, TestRoutes::NotFound);
}

#[test]
fn nested_commit_reports_whole_input() {
    let result = TestRoutes::from_str("/admin/unknown");
    assert_eq!(
        result.unwrap_err(),
        "Failed to parse nested route at path: /admin/unknown".to_string()
    );
}

#[test]
fn no_match_reports_input() {
    let result = TestRoutes::from_str("/user/1/extra");
    assert_eq!(
        result.unwrap_err(),
        "No route matches path: /user/1/extra".to_string()
    );
}

#[test]
fn admin_routes_parse_and_render() {
    assert_eq!(
        AdminRoutes::from_str("/users").unwrap(),
        AdminRoutes::AdminUsers
    );
    assert_eq!(
        AdminRoutes::from_str("/settings").unwrap(),
        AdminRoutes::AdminSettings
    );
    assert_eq!(
        AdminRoutes::from_str("/404").unwrap(),
        AdminRoutes::AdminNotFound
    );
    assert!(AdminRoutes::from_str("/nope").is_err());
    assert_eq!(AdminRoutes::AdminUsers.to_path(), "/users");
}

#[test]
fn routable_contract_methods() {
    let v = <TestRoutes as Routable>::try_from_path("/about").unwrap();
    assert_eq!(v, TestRoutes::About);
    assert_eq!(<TestRoutes as Routable>::fallback_route(), TestRoutes::NotFound);
    assert_eq!(
        <AdminRoutes as Routable>::fallback_route(),
        AdminRoutes::AdminNotFound
    );
}

#[test]
fn into_path_matches_to_path() {
    let v = TestRoutes::User { id: 5 };
    let p = v.to_path();
    let v2 = TestRoutes::User { id: 5 };
    assert_eq!(v2.into_path(), p);
    assert_eq!("already/a/path".to_string().into_path(), "already/a/path");
}

#[test]
fn plus_signed_id_parses() {
    let route = TestRoutes::from_str("/user/+42").unwrap();
    assert_eq!(route, TestRoutes::User { id: 42 });
}

#[test]
fn query_ignored_on_static_routes() {
    // Query fields never cause a match to fail; a route without fields
    // just ignores them.
    let route = TestRoutes::from_str("/about?tab=3").unwrap();
    assert_eq!(route, TestRoutes::About);
}

#[test]
fn post_query_last_binding_wins() {
    let route = TestRoutes::from_str("/post/1?comment=a&comment=b").unwrap();
    assert_eq!(
        route,
        TestRoutes::Post {
            id: 1,
            comment: Some("b".to_string())
        }
    );
}

#[test]
fn empty_comment_is_present() {
    let route = TestRoutes::from_str("/post/1?comment=").unwrap();
    assert_eq!(
        route,
        TestRoutes::Post {
            id: 1,
            comment: Some(String::new())
        }
    );
}

#[test]
fn comment_holding_the_pair_separator_does_not_round_trip() {
    // Query values are rendered raw — no percent-encoding — so a comment
    // holding `&` is read back as two pairs, only the first of which is
    // the comment. This is the documented boundary of the round trip.
    let v = TestRoutes::Post {
        id: 1,
        comment: Some("a&b".to_string()),
    };
    let back = TestRoutes::from_str(&v.to_path()).unwrap();
    assert_eq!(
        back,
        TestRoutes::Post {
            id: 1,
            comment: Some("a".to_string())
        }
    );
}
