//! The table-driven interpreter: validation, first-match parsing with
//! commit semantics, optional-segment handling, query ordering in the
//! builder, and tree assembly.

use routable::builder::build_path;
use routable::model::{
    Diagnostic, FieldSpec, RouteKind, RouteTable, TableConfig, ValueTy, VariantSpec,
};
use routable::parse::{parse_or_fallback, parse_route, RouteError};
use routable::routes::TestRoutes;
use routable::ToPath;
use routable::tree::{assemble, DeclKind};
use routable::validate::validate;
use routable::value::{FieldValue, RouteValue};

fn cfg() -> TableConfig {
    TableConfig {
        transition: false,
        view_prefix: String::new(),
        view_suffix: "View".to_string(),
        state_suffix: None,
    }
}

fn leaf(name: &str, path: &str, fields: Vec<FieldSpec>, is_fallback: bool) -> VariantSpec {
    VariantSpec {
        name: name.to_string(),
        kind: RouteKind::Leaf {
            path: path.to_string(),
        },
        fields,
        is_fallback,
    }
}

fn field(name: &str, ty: ValueTy, optional: bool) -> FieldSpec {
    FieldSpec {
        name: name.to_string(),
        ty,
        optional,
    }
}

fn fallback_variant() -> VariantSpec {
    leaf("NotFound", "/404", vec![], true)
}

#[test]
fn first_match_wins_on_ambiguity() {
    // A deliberate ambiguity: "/x/static" textually fits both patterns,
    // and the earlier-declared variant takes it.
    let t = RouteTable {
        config: cfg(),
        variants: vec![
            leaf("ById", "/x/:id", vec![field("id", ValueTy::Text, false)], false),
            leaf("Static", "/x/static", vec![], false),
            fallback_variant(),
        ],
    };
    assert!(validate(&t).is_ok());
    let v = parse_route(&t, "/x/static").unwrap();
    assert_eq!(v.variant, 0);
    assert!(matches!(&v.slots[0], Some(FieldValue::Text(s)) if s == "static"));
}

#[test]
fn optional_segment_absent_and_present() {
    let t = RouteTable {
        config: cfg(),
        variants: vec![
            leaf("Asset", "/asset/:id?", vec![field("id", ValueTy::UInt, true)], false),
            fallback_variant(),
        ],
    };
    assert!(validate(&t).is_ok());
    let absent = parse_route(&t, "/asset").unwrap();
    assert_eq!(absent.variant, 0);
    assert!(matches!(&absent.slots[0], None));
    // An absent optional segment is skipped entirely when rendering:
    // no trailing slash, no placeholder.
    assert_eq!(build_path(&t, &absent), "/asset");
    let present = parse_route(&t, "/asset/7").unwrap();
    assert!(matches!(&present.slots[0], Some(FieldValue::UInt(7))));
    assert_eq!(build_path(&t, &present), "/asset/7");
}

#[test]
fn query_is_sorted_by_key() {
    // Two unused optional fields, declared and set in reverse key order,
    // render sorted by key.
    let t = RouteTable {
        config: cfg(),
        variants: vec![
            leaf(
                "Q",
                "/q",
                vec![field("b", ValueTy::Text, true), field("a", ValueTy::Text, true)],
                false,
            ),
            fallback_variant(),
        ],
    };
    assert!(validate(&t).is_ok());
    let v = RouteValue {
        variant: 0,
        slots: vec![
            Some(FieldValue::Text("2".to_string())),
            Some(FieldValue::Text("1".to_string())),
        ],
        nested: None,
    };
    assert_eq!(build_path(&t, &v), "/q?a=1&b=2");
}

fn nested_table() -> RouteTable {
    RouteTable {
        config: cfg(),
        variants: vec![
            leaf("Users", "/users", vec![], false),
            leaf("InnerNotFound", "/404", vec![], true),
        ],
    }
}

fn outer_table() -> RouteTable {
    RouteTable {
        config: cfg(),
        variants: vec![
            VariantSpec {
                name: "Admin".to_string(),
                kind: RouteKind::Parent {
                    path: "/admin".to_string(),
                    ssr: None,
                    table: Box::new(nested_table()),
                },
                fields: vec![],
                is_fallback: false,
            },
            fallback_variant(),
        ],
    }
}

#[test]
fn nested_parse_commits_to_subtree() {
    let t = outer_table();
    assert!(validate(&t).is_ok());
    let ok = parse_route(&t, "/admin/users").unwrap();
    assert_eq!(ok.variant, 0);
    let inner = ok.nested.as_ref().unwrap();
    assert_eq!(inner.variant, 0);
    // The subtree has no match for this suffix, and a committed subtree
    // failure aborts the whole parse instead of trying later variants.
    let err = parse_route(&t, "/admin/unknown");
    assert!(matches!(err, Err(RouteError::Nested { .. })));
    // The lenient conversion resolves to the outer fallback, never the
    // inner one.
    let lenient = parse_or_fallback(&t, "/admin/unknown");
    assert_eq!(lenient.variant, 1);
    assert!(lenient.nested.is_none());
}

#[test]
fn nested_build_joins_prefix_and_suffix() {
    let t = outer_table();
    let v = RouteValue {
        variant: 0,
        slots: vec![],
        nested: Some(Box::new(RouteValue {
            variant: 0,
            slots: vec![],
            nested: None,
        })),
    };
    assert_eq!(build_path(&t, &v), "/admin/users");
}

#[test]
fn committed_uint_param_is_fatal_in_interpreter() {
    let t = RouteTable {
        config: cfg(),
        variants: vec![
            leaf("User", "/user/:id", vec![field("id", ValueTy::UInt, false)], false),
            fallback_variant(),
        ],
    };
    assert!(validate(&t).is_ok());
    let err = parse_route(&t, "/user/abc");
    assert!(matches!(err, Err(RouteError::ParamParse { .. })));
    let lenient = parse_or_fallback(&t, "/user/abc");
    assert_eq!(lenient.variant, 1);
}

#[test]
fn repeated_binding_takes_the_last_fragment() {
    // Two segments binding one field: the later binding shadows the
    // earlier, so the last fragment fills the slot.
    let t = RouteTable {
        config: cfg(),
        variants: vec![
            leaf("D", "/d/:x/:x", vec![field("x", ValueTy::Text, false)], false),
            fallback_variant(),
        ],
    };
    assert!(validate(&t).is_ok());
    let v = parse_route(&t, "/d/a/b").unwrap();
    assert!(matches!(&v.slots[0], Some(FieldValue::Text(s)) if s == "b"));
}

#[test]
fn validator_reports_unmatched_param() {
    let t = RouteTable {
        config: cfg(),
        variants: vec![leaf("U", "/u/:id", vec![], false), fallback_variant()],
    };
    let ds = validate(&t).unwrap_err();
    assert!(matches!(&ds[0], Diagnostic::UnmatchedParam { name, .. } if name == "id"));
}

#[test]
fn validator_reports_optional_param_on_required_field() {
    let t = RouteTable {
        config: cfg(),
        variants: vec![
            leaf("A", "/a/:x?", vec![field("x", ValueTy::Text, false)], false),
            fallback_variant(),
        ],
    };
    let ds = validate(&t).unwrap_err();
    assert!(matches!(&ds[0], Diagnostic::OptionalParamRequiredField { name, .. } if name == "x"));
}

#[test]
fn validator_reports_unused_required_field() {
    let t = RouteTable {
        config: cfg(),
        variants: vec![
            leaf("A", "/a", vec![field("extra", ValueTy::Text, false)], false),
            fallback_variant(),
        ],
    };
    let ds = validate(&t).unwrap_err();
    assert!(matches!(&ds[0], Diagnostic::UnusedRequiredField { name, .. } if name == "extra"));
}

#[test]
fn validator_reports_optional_before_required() {
    let t = RouteTable {
        config: cfg(),
        variants: vec![
            leaf(
                "A",
                "/a/:x?/b",
                vec![field("x", ValueTy::Text, true)],
                false,
            ),
            fallback_variant(),
        ],
    };
    let ds = validate(&t).unwrap_err();
    assert!(ds
        .iter()
        .any(|d| matches!(d, Diagnostic::OptionalBeforeRequired { .. })));
}

#[test]
fn validator_reports_fallback_violations() {
    let none = RouteTable {
        config: cfg(),
        variants: vec![leaf("A", "/a", vec![], false)],
    };
    let ds = validate(&none).unwrap_err();
    assert!(matches!(&ds[0], Diagnostic::NoFallback));
    let two = RouteTable {
        config: cfg(),
        variants: vec![
            leaf("A", "/a", vec![], true),
            leaf("B", "/b", vec![], true),
        ],
    };
    let ds = validate(&two).unwrap_err();
    assert!(matches!(&ds[0], Diagnostic::MultipleFallbacks { variant } if variant == "B"));
}

#[test]
fn validation_failure_withholds_everything() {
    // Fail closed: a table with any violation is never interpreted.
    let t = RouteTable {
        config: cfg(),
        variants: vec![leaf("U", "/u/:id", vec![], false), fallback_variant()],
    };
    assert!(validate(&t).is_err());
}

#[test]
fn assemble_keeps_declaration_order() {
    let t = outer_table();
    let model = assemble(&t);
    assert!(!model.transition);
    assert_eq!(model.fallback_view, "NotFoundView");
    assert_eq!(model.children.len(), 2);
    assert_eq!(model.children[0].path, "/admin");
    assert_eq!(model.children[0].view, "AdminView");
    match &model.children[0].kind {
        DeclKind::Nested { children, .. } => {
            assert_eq!(children.len(), 2);
            assert_eq!(children[0].view, "UsersView");
            assert_eq!(children[1].path, "/404");
        }
        _ => panic!("expected a nesting declaration"),
    }
    assert!(matches!(model.children[1].kind, DeclKind::Leaf));
}

fn test_routes_table() -> RouteTable {
    RouteTable {
        config: cfg(),
        variants: vec![
            leaf("Home", "/", vec![], false),
            leaf("About", "/about", vec![], false),
            leaf("User", "/user/:id", vec![field("id", ValueTy::UInt, false)], false),
            leaf(
                "Post",
                "/post/:id",
                vec![
                    field("id", ValueTy::UInt, false),
                    field("comment", ValueTy::Text, true),
                ],
                false,
            ),
            VariantSpec {
                name: "Admin".to_string(),
                kind: RouteKind::Parent {
                    path: "/admin".to_string(),
                    ssr: None,
                    table: Box::new(RouteTable {
                        config: cfg(),
                        variants: vec![
                            leaf("AdminUsers", "/users", vec![], false),
                            leaf("AdminSettings", "/settings", vec![], false),
                            leaf("AdminNotFound", "/404", vec![], true),
                        ],
                    }),
                },
                fields: vec![],
                is_fallback: false,
            },
            leaf("NotFound", "/404", vec![], true),
        ],
    }
}

#[test]
fn interpreter_agrees_with_expanded_routes() {
    let t = test_routes_table();
    assert!(validate(&t).is_ok());
    let inputs = [
        "/",
        "/about",
        "/user/42",
        "/user/abc",
        "/post/123",
        "/post/456?comment=hello",
        "/unknown",
        "/unknown/path",
        "/admin/users",
        "/admin/settings",
        "/admin/unknown",
        "/admin",
        "/404",
        "/about?tab=1",
        "/user/1/extra",
    ];
    for input in inputs {
        let by_table = parse_route(&t, input);
        let by_enum = TestRoutes::from_str(input);
        match (by_table, by_enum) {
            (Ok(rv), Ok(tv)) => {
                let expected_variant = match tv {
                    TestRoutes::Home => 0,
                    TestRoutes::About => 1,
                    TestRoutes::User { .. } => 2,
                    TestRoutes::Post { .. } => 3,
                    TestRoutes::Admin(_) => 4,
                    TestRoutes::NotFound => 5,
                };
                assert_eq!(rv.variant, expected_variant, "on {input}");
            }
            (Err(_), Err(_)) => {}
            (a, b) => panic!("interpreter and expansion disagree on {input}: {a:?} vs {b:?}"),
        }
    }
}

#[test]
fn interpreter_builds_the_expanded_paths() {
    let t = test_routes_table();
    let cases: Vec<(RouteValue, TestRoutes)> = vec![
        (
            RouteValue {
                variant: 0,
                slots: vec![],
                nested: None,
            },
            TestRoutes::Home,
        ),
        (
            RouteValue {
                variant: 2,
                slots: vec![Some(FieldValue::UInt(42))],
                nested: None,
            },
            TestRoutes::User { id: 42 },
        ),
        (
            RouteValue {
                variant: 3,
                slots: vec![
                    Some(FieldValue::UInt(7)),
                    Some(FieldValue::Text("hi".to_string())),
                ],
                nested: None,
            },
            TestRoutes::Post {
                id: 7,
                comment: Some("hi".to_string()),
            },
        ),
        (
            RouteValue {
                variant: 4,
                slots: vec![],
                nested: Some(Box::new(RouteValue {
                    variant: 1,
                    slots: vec![],
                    nested: None,
                })),
            },
            TestRoutes::Admin(routable::routes::AdminRoutes::AdminSettings),
        ),
    ];
    for (rv, tv) in cases {
        assert_eq!(build_path(&t, &rv), tv.to_path());
    }
}
