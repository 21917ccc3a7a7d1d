//! The small pieces: the segment grammar, path joining, decimal parsing
//! and rendering, name derivation, parameter values, and the accessor
//! and state-plan decisions.

use routable::accessor::{classify_accessor, AccessorKind, PathAttributeArgs, variant_path_to_string};
use routable::combine::combine_paths;
use routable::model::{
    ParentRouteAttrs, RouteAttrs, RouteKind, RouteTable, RoutingMode, TableConfig, VariantInput,
    VariantSpec, classify_variant, Diagnostic, FieldSpec, ValueTy,
};
use routable::naming::{build_module_view_path, build_variant_view_name, default_view_suffix, to_snake_case};
use routable::param::{ParamError, ParamValue};
use routable::segment::{parse_segments, Segment};
use routable::state::{provide_plan, state_type_name, sub_state_type_name, ProvideStep};
use routable::strutil::{chars_to_string, parse_u64, str_to_chars, u64_to_dec};

#[test]
fn segments_of_typical_paths() {
    let segs = parse_segments("/user/:id");
    assert_eq!(segs.len(), 2);
    assert!(matches!(&segs[0], Segment::Static(t) if t == "user"));
    assert!(matches!(&segs[1], Segment::Param(n) if n == "id"));

    let segs = parse_segments("/asset/:id?");
    assert!(matches!(&segs[1], Segment::OptionalParam(n) if n == "id"));

    assert_eq!(parse_segments("/").len(), 0);
    assert_eq!(parse_segments("").len(), 0);
    assert_eq!(parse_segments("//a").len(), 1);

    // A malformed parameter degrades to an empty name for validation to
    // reject, never to a grammar error.
    let segs = parse_segments("/:");
    assert!(matches!(&segs[0], Segment::Param(n) if n.is_empty()));
}

#[test]
fn combine_paths_normalizes_separators() {
    assert_eq!(combine_paths("/", "/"), "/");
    assert_eq!(combine_paths("", ""), "/");
    assert_eq!(combine_paths("/admin", "/users"), "/admin/users");
    assert_eq!(combine_paths("/admin/", "/users"), "/admin/users");
    assert_eq!(combine_paths("/admin//", "//users"), "/admin/users");
    assert_eq!(combine_paths("/admin", "/"), "/admin");
    assert_eq!(combine_paths("/", "/users"), "/users");
}

#[test]
fn decimal_round_trip() {
    let digits = u64_to_dec(9007199254740993);
    assert_eq!(chars_to_string(&digits), "9007199254740993");
    assert_eq!(parse_u64(&digits), Some(9007199254740993));
    assert_eq!(parse_u64(&str_to_chars("0")), Some(0));
    assert_eq!(parse_u64(&str_to_chars("18446744073709551615")), Some(u64::MAX));
    assert_eq!(parse_u64(&str_to_chars("18446744073709551616")), None);
    assert_eq!(parse_u64(&str_to_chars("")), None);
    assert_eq!(parse_u64(&str_to_chars("1a")), None);
    // An optional single leading plus is accepted, as u64 parsing accepts it.
    assert_eq!(parse_u64(&str_to_chars("+42")), Some(42));
    assert_eq!(parse_u64(&str_to_chars("+")), None);
    assert_eq!(parse_u64(&str_to_chars("++1")), None);
    assert_eq!(parse_u64(&str_to_chars("4+2")), None);
}

#[test]
fn snake_case_and_view_names() {
    assert_eq!(to_snake_case("DashboardSettings"), "dashboard_settings");
    assert_eq!(to_snake_case("Admin"), "admin");
    assert_eq!(to_snake_case("already_snake"), "already_snake");
    assert_eq!(default_view_suffix(), "View");
    assert_eq!(build_variant_view_name("", "Home", "View"), "HomeView");
    assert_eq!(build_variant_view_name("App", "Home", "Page"), "AppHomePage");
    assert_eq!(
        build_module_view_path("Dashboard", true, "routes"),
        "crate::routes::dashboard::layout::Layout"
    );
    assert_eq!(
        build_module_view_path("Home", false, "app/pages"),
        "crate::app::pages::home::view::View"
    );
}

#[test]
fn routing_mode_names() {
    assert!(matches!(RoutingMode::from_str("auto"), Ok(RoutingMode::Auto)));
    assert!(matches!(RoutingMode::from_str("Flat"), Ok(RoutingMode::Flat)));
    assert!(matches!(RoutingMode::from_str("NESTED"), Ok(RoutingMode::Nested)));
    let err = RoutingMode::from_str("sideways").unwrap_err();
    assert_eq!(
        err,
        "Invalid routing mode 'sideways'. Expected 'auto', 'nested', or 'flat'"
    );
}

#[test]
fn param_values_resolve() {
    let v: ParamValue<u64> = ParamValue::Value(3);
    assert_eq!(v.clone().ok(), Some(3));
    assert_eq!(v.unwrap_or(9), 3);
    let m: ParamValue<u64> = ParamValue::Missing;
    assert_eq!(m.clone().ok(), None);
    assert_eq!(m.unwrap_or(9), 9);
    let p: ParamValue<u64> = ParamValue::ParseError("x".to_string());
    assert_eq!(p.ok(), None);
    assert_eq!(
        ParamError::Missing("id").message(),
        "missing param: id"
    );
    assert_eq!(
        ParamError::ParseError("zzz".to_string()).message(),
        "failed to parse param: zzz"
    );
}

#[test]
fn classifier_picks_one_kind() {
    let input = VariantInput {
        name: "Home".to_string(),
        route: Some(RouteAttrs {
            path: Some("/".to_string()),
        }),
        parent_route: None,
        protected_route: None,
        protected_parent_route: None,
        fallback: None,
        fields: vec![],
        nested: None,
    };
    let v = classify_variant(input).unwrap();
    assert!(matches!(v.kind, RouteKind::Leaf { .. }));
    assert!(!v.is_fallback);
}

#[test]
fn classifier_rejects_conflicts_and_accepts_headers() {
    let conflicted = VariantInput {
        name: "Both".to_string(),
        route: Some(RouteAttrs {
            path: Some("/a".to_string()),
        }),
        parent_route: Some(ParentRouteAttrs {
            path: Some("/b".to_string()),
            ssr: None,
        }),
        protected_route: None,
        protected_parent_route: None,
        fallback: None,
        fields: vec![],
        nested: None,
    };
    let err = classify_variant(conflicted).unwrap_err();
    assert!(matches!(err, Diagnostic::MultipleRouteAttrs { .. }));

    // An annotation without a concrete path makes a pure-state variant,
    // deliberately excluded from the router tree.
    let header = VariantInput {
        name: "Header".to_string(),
        route: Some(RouteAttrs { path: None }),
        parent_route: None,
        protected_route: None,
        protected_parent_route: None,
        fallback: None,
        fields: vec![FieldSpec {
            name: "x".to_string(),
            ty: ValueTy::Text,
            optional: true,
        }],
        nested: None,
    };
    let v = classify_variant(header).unwrap();
    assert!(matches!(v.kind, RouteKind::Unrouted));

    let orphan_parent = VariantInput {
        name: "Orphan".to_string(),
        route: None,
        parent_route: Some(ParentRouteAttrs {
            path: Some("/x".to_string()),
            ssr: None,
        }),
        protected_route: None,
        protected_parent_route: None,
        fallback: None,
        fields: vec![],
        nested: None,
    };
    let err = classify_variant(orphan_parent).unwrap_err();
    assert!(matches!(err, Diagnostic::NestedPayloadMissing { .. }));
}

#[test]
fn accessor_decisions() {
    let inline = classify_accessor(
        Some(PathAttributeArgs {
            result: false,
            redirect: None,
        }),
        false,
        false,
    )
    .unwrap();
    assert!(matches!(inline, AccessorKind::ParamsInline));
    let redirect = classify_accessor(
        Some(PathAttributeArgs {
            result: false,
            redirect: Some("/login".to_string()),
        }),
        false,
        false,
    )
    .unwrap();
    assert!(matches!(redirect, AccessorKind::ParamsRedirect { redirect } if redirect == "/login"));
    let raw = classify_accessor(
        Some(PathAttributeArgs {
            result: true,
            redirect: Some("/login".to_string()),
        }),
        false,
        false,
    )
    .unwrap();
    assert!(matches!(raw, AccessorKind::ParamsResult));
    let query = classify_accessor(None, true, false).unwrap();
    assert!(matches!(query, AccessorKind::Query));
    let bare = classify_accessor(None, false, false);
    assert_eq!(
        bare.unwrap_err(),
        "Parameter must have either `#[path_param]` or `#[query]`."
    );
    assert!(classify_accessor(None, true, true).is_err());
}

#[test]
fn accessor_function_names() {
    let parts = vec!["AppRouter".to_string(), "Foo".to_string()];
    assert_eq!(variant_path_to_string(&parts), "AppRouter_Foo");
    assert_eq!(variant_path_to_string(&vec![]), "");
}

#[test]
fn state_names_and_plan() {
    assert_eq!(state_type_name("Dashboard"), "DashboardState");
    assert_eq!(sub_state_type_name("Dashboard"), "DashboardSubState");
    let t = RouteTable {
        config: TableConfig {
            transition: false,
            view_prefix: String::new(),
            view_suffix: "View".to_string(),
            state_suffix: Some("Store".to_string()),
        },
        variants: vec![
            VariantSpec {
                name: "Home".to_string(),
                kind: RouteKind::Leaf {
                    path: "/".to_string(),
                },
                fields: vec![],
                is_fallback: false,
            },
            VariantSpec {
                name: "AdminArea".to_string(),
                kind: RouteKind::Parent {
                    path: "/admin".to_string(),
                    ssr: None,
                    table: Box::new(RouteTable {
                        config: TableConfig {
                            transition: false,
                            view_prefix: String::new(),
                            view_suffix: "View".to_string(),
                            state_suffix: None,
                        },
                        variants: vec![VariantSpec {
                            name: "Inner".to_string(),
                            kind: RouteKind::Leaf {
                                path: "/inner".to_string(),
                            },
                            fields: vec![],
                            is_fallback: true,
                        }],
                    }),
                },
                fields: vec![],
                is_fallback: false,
            },
        ],
    };
    let plan = provide_plan(&t);
    assert_eq!(plan.len(), 4);
    assert!(matches!(&plan[0], ProvideStep::Field { name } if name == "home"));
    assert!(matches!(&plan[1], ProvideStep::Field { name } if name == "admin_area"));
    assert!(matches!(&plan[2], ProvideStep::SubState { name } if name == "admin_area"));
    assert!(matches!(&plan[3], ProvideStep::Nested { name } if name == "admin_area"));
}
